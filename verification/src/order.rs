//! Deterministic ordering of search results: stable sorting of
//! `(key, position)` pairs by key, then by original position.

use vstd::prelude::*;
use vstd::relations::{sorted_by, total_ordering};
use vstd::seq_lib::lemma_sorted_unique;
use vstd::seq_lib::lemma_multiset_commutative;

verus! {

/// Order on `(key, position)` pairs: by key, ties by position.
pub open spec fn pair_le(a: (u64, usize), b: (u64, usize)) -> bool {
    a.0 < b.0 || (a.0 == b.0 && a.1 <= b.1)
}

/// The pair order as a relation value.
pub open spec fn pair_leq() -> spec_fn((u64, usize), (u64, usize)) -> bool {
    (|a: (u64, usize), b: (u64, usize)| pair_le(a, b))
}

pub proof fn lemma_pair_total_ordering()
    ensures
        total_ordering(pair_leq()),
{
    let leq = pair_leq();
    assert forall|x: (u64, usize)| #[trigger] leq(x, x) by {}
    assert forall|x: (u64, usize), y: (u64, usize)| #[trigger] leq(x, y) && #[trigger] leq(
        y,
        x,
    ) implies x == y by {}
    assert forall|x: (u64, usize), y: (u64, usize), z: (u64, usize)|
        #[trigger] leq(x, y) && #[trigger] leq(y, z) implies leq(x, z) by {}
    assert forall|x: (u64, usize), y: (u64, usize)| #![trigger leq(x, y)] true implies leq(x, y)
        || leq(y, x) by {}
}

/// The positions `0..keys.len()` paired with their keys.
pub open spec fn key_pairs(keys: Seq<u64>) -> Seq<(u64, usize)> {
    Seq::new(keys.len(), |i: int| (keys[i], i as usize))
}

/// The key pairs sorted by key, ties by original position: the order in
/// which results with these sort keys are returned.
pub open spec fn spec_sort_order(keys: Seq<u64>) -> Seq<(u64, usize)> {
    key_pairs(keys).sort_by(pair_leq())
}

fn pair_le_exec(a: (u64, usize), b: (u64, usize)) -> (r: bool)
    ensures
        r == pair_le(a, b),
{
    a.0 < b.0 || (a.0 == b.0 && a.1 <= b.1)
}

/// Sorts the positions of `keys` by key, ties by position, by insertion
/// into an already sorted vector.
pub fn sort_order(keys: &Vec<u64>) -> (r: Vec<(u64, usize)>)
    ensures
        r@ == spec_sort_order(keys@),
        r@.len() == keys@.len(),
        forall|k: int|
            0 <= k < r@.len() ==> (#[trigger] r@[k]).1 < keys@.len() && keys@[r@[k].1 as int]
                == r@[k].0,
        forall|k1: int, k2: int| 0 <= k1 < k2 < r@.len() ==> r@[k1].0 <= r@[k2].0,
{
    let ghost leq = pair_leq();
    proof {
        lemma_pair_total_ordering();
    }
    let n: usize = keys.len();
    let mut pairs: Vec<(u64, usize)> = Vec::new();
    for i in 0..n
        invariant
            n == keys@.len(),
            pairs@.len() == i,
            forall|j: int| 0 <= j < i ==> pairs@[j] == (keys@[j], j as usize),
        decreases n - i,
    {
        pairs.push((keys[i], i));
    }
    proof {
        assert(pairs@ =~= key_pairs(keys@));
    }

    let mut out: Vec<(u64, usize)> = Vec::new();
    proof {
        assert(out@ =~= pairs@.take(0));
    }
    for i in 0..n
        invariant
            n == keys@.len(),
            pairs@ == key_pairs(keys@),
            pairs@.len() == n,
            out@.len() == i,
            leq == pair_leq(),
            sorted_by(out@, leq),
            out@.to_multiset() == pairs@.take(i as int).to_multiset(),
        decreases n - i,
    {
        let x = pairs[i];
        let mut pos: usize = 0;
        while pos < out.len() && pair_le_exec(out[pos], x)
            invariant
                pos <= out@.len(),
                forall|m: int| 0 <= m < pos ==> pair_le(#[trigger] out@[m], x),
            decreases out@.len() - pos,
        {
            pos = pos + 1;
        }
        proof {
            broadcast use vstd::seq_lib::group_to_multiset_ensures;

            let o = out@;
            let newseq = o.insert(pos as int, x);
            assert forall|a: int, b: int| 0 <= a < b < newseq.len() implies #[trigger] leq(
                newseq[a],
                newseq[b],
            ) by {
                if pos < o.len() {
                    assert(!pair_le(o[pos as int], x));
                }
                if b < pos {
                    assert(newseq[a] == o[a] && newseq[b] == o[b]);
                    assert(leq(o[a], o[b]));
                } else if a < pos && b == pos {
                    assert(newseq[a] == o[a] && newseq[b] == x);
                    assert(pair_le(o[a], x));
                    assert(leq(o[a], x));
                } else if a < pos && b > pos {
                    assert(newseq[a] == o[a] && newseq[b] == o[b - 1]);
                    assert(a < b - 1);
                    assert(leq(o[a], o[b - 1]));
                } else if a == pos {
                    assert(newseq[a] == x && newseq[b] == o[b - 1]);
                    assert(pos as int <= b - 1 < o.len());
                    if (pos as int) < b - 1 {
                        assert(leq(o[pos as int], o[b - 1]));
                    }
                    assert(leq(x, o[b - 1]));
                } else {
                    assert(newseq[a] == o[a - 1] && newseq[b] == o[b - 1]);
                    assert(pos as int <= a - 1 < b - 1);
                    assert(leq(o[a - 1], o[b - 1]));
                }
            }
            assert(sorted_by(newseq, leq));
            assert(newseq =~= o.take(pos as int) + seq![x] + o.skip(pos as int));
            lemma_multiset_commutative(o.take(pos as int) + seq![x], o.skip(pos as int));
            lemma_multiset_commutative(o.take(pos as int), seq![x]);
            assert(o =~= o.take(pos as int) + o.skip(pos as int));
            lemma_multiset_commutative(o.take(pos as int), o.skip(pos as int));
            assert(newseq.to_multiset() =~= o.to_multiset().insert(x));
            assert(pairs@.take(i + 1).drop_last() =~= pairs@.take(i as int));
            assert(pairs@.take(i + 1).to_multiset() =~= pairs@.take(
                i as int,
            ).to_multiset().insert(x)) by {
                assert(pairs@.take(i + 1) =~= pairs@.take(i as int).push(x));
            }
        }
        out.insert(pos, x);
    }
    proof {
        assert(pairs@.take(n as int) =~= pairs@);
        key_pairs(keys@).lemma_sort_by_ensures(pair_leq());
        lemma_sorted_unique(out@, key_pairs(keys@).sort_by(pair_leq()), pair_leq());
        broadcast use vstd::seq_lib::group_to_multiset_ensures;

        assert forall|k: int| 0 <= k < out@.len() implies (#[trigger] out@[k]).1 < keys@.len()
            && keys@[out@[k].1 as int] == out@[k].0 by {
            assert(out@.to_multiset().contains(out@[k]));
            assert(key_pairs(keys@).to_multiset().contains(out@[k]));
            assert(key_pairs(keys@).contains(out@[k]));
            let j = choose|j: int|
                0 <= j < key_pairs(keys@).len() && key_pairs(keys@)[j] == out@[k];
        }
        assert forall|k1: int, k2: int| 0 <= k1 < k2 < out@.len() implies out@[k1].0
            <= out@[k2].0 by {
            assert(leq(out@[k1], out@[k2]));
        }
    }
    out
}

/// Every pair of the sorted order carries a position inside the key
/// list.
pub proof fn lemma_sort_order_range(keys: Seq<u64>)
    ensures
        spec_sort_order(keys).len() == keys.len(),
        forall|k: int|
            0 <= k < spec_sort_order(keys).len() ==> (#[trigger] spec_sort_order(keys)[k]).1
                < keys.len(),
{
    broadcast use vstd::seq_lib::group_to_multiset_ensures;

    lemma_pair_total_ordering();
    key_pairs(keys).lemma_sort_by_ensures(pair_leq());
    let s = spec_sort_order(keys);
    assert(s.to_multiset().len() == key_pairs(keys).to_multiset().len());
    assert(s.len() == keys.len());
    assert forall|k: int| 0 <= k < s.len() implies (#[trigger] s[k]).1 < keys.len() by {
        assert(s.to_multiset().contains(s[k]));
        assert(key_pairs(keys).to_multiset().contains(s[k]));
        assert(key_pairs(keys).contains(s[k]));
        let j = choose|j: int| 0 <= j < key_pairs(keys).len() && key_pairs(keys)[j] == s[k];
    }
}

/// For key lists short enough to index, the sorted order still pairs
/// each position with its key, and the keys come out ascending.
pub proof fn lemma_sort_order_keys(keys: Seq<u64>)
    requires
        keys.len() <= usize::MAX,
    ensures
        spec_sort_order(keys).len() == keys.len(),
        forall|k: int|
            0 <= k < spec_sort_order(keys).len() ==> (#[trigger] spec_sort_order(keys)[k]).1
                < keys.len() && keys[spec_sort_order(keys)[k].1 as int] == spec_sort_order(
                keys,
            )[k].0,
        forall|k1: int, k2: int|
            0 <= k1 < k2 < spec_sort_order(keys).len() ==> (#[trigger] spec_sort_order(
                keys,
            )[k1]).0 <= (#[trigger] spec_sort_order(keys)[k2]).0,
{
    broadcast use vstd::seq_lib::group_to_multiset_ensures;

    let leq = pair_leq();
    lemma_pair_total_ordering();
    key_pairs(keys).lemma_sort_by_ensures(leq);
    let s = spec_sort_order(keys);
    assert(s.to_multiset().len() == key_pairs(keys).to_multiset().len());
    assert(s.len() == keys.len());
    assert forall|k: int| 0 <= k < s.len() implies (#[trigger] s[k]).1 < keys.len() && keys[
        s[k].1 as int
    ] == s[k].0 by {
        assert(s.to_multiset().contains(s[k]));
        assert(key_pairs(keys).to_multiset().contains(s[k]));
        assert(key_pairs(keys).contains(s[k]));
        let j = choose|j: int| 0 <= j < key_pairs(keys).len() && key_pairs(keys)[j] == s[k];
        assert(key_pairs(keys)[j] == (keys[j], j as usize));
        assert(s[k].1 == j as usize);
        assert(j < usize::MAX + 1);
        assert(j == j as usize);
        assert(s[k].0 == keys[j]);
    }
    assert forall|k1: int, k2: int| 0 <= k1 < k2 < s.len() implies (#[trigger] s[k1]).0 <= (
    #[trigger] s[k2]).0 by {
        assert(leq(s[k1], s[k2]));
    }
}

/// The elements of `c` picked in the order of the sorted position
/// pairs.
pub open spec fn spec_assemble<T>(c: Seq<T>, ord: Seq<(u64, usize)>) -> Seq<T>
    decreases ord.len(),
{
    if ord.len() == 0 {
        Seq::empty()
    } else {
        spec_assemble(c, ord.drop_last()).push(c[ord.last().1 as int])
    }
}

pub proof fn lemma_assemble_pointwise<T>(c: Seq<T>, ord: Seq<(u64, usize)>)
    ensures
        spec_assemble(c, ord).len() == ord.len(),
        forall|i: int|
            0 <= i < ord.len() ==> spec_assemble(c, ord)[i] == c[(#[trigger] ord[i]).1 as int],
    decreases ord.len(),
{
    if ord.len() > 0 {
        lemma_assemble_pointwise(c, ord.drop_last());
        assert forall|i: int| 0 <= i < ord.len() implies spec_assemble(c, ord)[i] == c[(
        #[trigger] ord[i]).1 as int] by {
            if i < ord.len() - 1 {
                assert(ord.drop_last()[i] == ord[i]);
                assert(spec_assemble(c, ord)[i] == spec_assemble(c, ord.drop_last())[i]);
            }
        }
    }
}

/// The whole sequence when `n` exceeds its length, else its first `n`
/// elements.
pub open spec fn take_at_most<A>(s: Seq<A>, n: int) -> Seq<A> {
    if n >= s.len() {
        s
    } else if n < 0 {
        Seq::empty()
    } else {
        s.take(n)
    }
}

pub proof fn lemma_take_at_most_push<A>(s: Seq<A>, x: A, n: int)
    requires
        n >= 0,
    ensures
        take_at_most(s.push(x), n) == if s.len() < n {
            take_at_most(s, n).push(x)
        } else {
            take_at_most(s, n)
        },
{
    if s.len() < n {
        assert(take_at_most(s.push(x), n) =~= take_at_most(s, n).push(x));
    } else {
        assert(take_at_most(s.push(x), n) =~= take_at_most(s, n));
    }
}

} // verus!
