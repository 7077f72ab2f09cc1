use vstd::prelude::*;
use vstd::seq_lib::group_to_multiset_ensures;

verus! {

/// Lexicographic order on pairs, as std orders tuples.
pub open spec fn pair_le(a: (u64, u64), b: (u64, u64)) -> bool {
    a.0 < b.0 || (a.0 == b.0 && a.1 <= b.1)
}

pub open spec fn sorted_pairs(s: Seq<(u64, u64)>) -> bool {
    forall|a: int, b: int| 0 <= a < b < s.len() ==> pair_le(s[a], s[b])
}

/// Relies on std's `slice::sort_unstable` on `(u64, u64)`: the same elements,
/// in ascending lexicographic order.
#[verifier::external_body]
pub(crate) fn sort_pairs(v: &mut Vec<(u64, u64)>)
    ensures
        final(v)@.to_multiset() == old(v)@.to_multiset(),
        sorted_pairs(final(v)@),
{
    v.sort_unstable();
}

pub open spec fn sorted_ages(s: Seq<i64>) -> bool {
    forall|a: int, b: int| 0 <= a < b < s.len() ==> s[a] <= s[b]
}

/// Relies on std's `slice::sort_unstable` on `i64`: the same elements, ascending.
#[verifier::external_body]
pub(crate) fn sort_ages(v: &mut Vec<i64>)
    ensures
        final(v)@.to_multiset() == old(v)@.to_multiset(),
        sorted_ages(final(v)@),
{
    v.sort_unstable();
}

/// The weight of entry index `idx`: `d[idx]`, or zero off the sequence.
pub open spec fn weight(d: Seq<int>, idx: u64) -> int {
    if (idx as int) < d.len() {
        d[idx as int]
    } else {
        0
    }
}

/// Total weight of the entries of `s` that sort at or before `x`.
pub open spec fn weight_upto(s: Seq<(u64, u64)>, x: (u64, u64), d: Seq<int>) -> int
    decreases s.len(),
{
    if s.len() == 0 {
        0
    } else {
        weight_upto(s.drop_last(), x, d) + if pair_le(s.last(), x) {
            weight(d, s.last().1)
        } else {
            0
        }
    }
}

/// Total weight of the first `m` entries of `s`.
pub open spec fn prefix_weight(s: Seq<(u64, u64)>, m: int, d: Seq<int>) -> int
    decreases m,
{
    if m <= 0 {
        0
    } else {
        prefix_weight(s, m - 1, d) + weight(d, s[m - 1].1)
    }
}

proof fn lemma_weight_upto_remove(s: Seq<(u64, u64)>, x: (u64, u64), d: Seq<int>, k: int)
    requires
        0 <= k < s.len(),
    ensures
        weight_upto(s, x, d) == weight_upto(s.remove(k), x, d) + if pair_le(s[k], x) {
            weight(d, s[k].1)
        } else {
            0
        },
    decreases s.len(),
{
    if k == s.len() - 1 {
        assert(s.remove(k) =~= s.drop_last());
    } else {
        lemma_weight_upto_remove(s.drop_last(), x, d, k);
        assert(s.remove(k).drop_last() =~= s.drop_last().remove(k));
    }
}

/// The weight at or before `x` does not depend on the order of the entries.
pub proof fn lemma_weight_upto_permutation(s1: Seq<(u64, u64)>, s2: Seq<(u64, u64)>, x: (u64, u64), d: Seq<int>)
    requires
        s1.to_multiset() == s2.to_multiset(),
    ensures
        weight_upto(s1, x, d) == weight_upto(s2, x, d),
    decreases s1.len(),
{
    broadcast use group_to_multiset_ensures;

    vstd::seq_lib::to_multiset_len(s1);
    vstd::seq_lib::to_multiset_len(s2);
    if s1.len() == 0 {
        assert(s2.len() == 0);
    } else {
        let e = s1.last();
        assert(s1.contains(e)) by {
            assert(s1[s1.len() - 1] == e);
        }
        assert(s1.to_multiset().count(e) > 0);
        assert(s2.to_multiset().count(e) > 0);
        assert(s2.contains(e));
        let k = choose|k: int| 0 <= k < s2.len() && s2[k] == e;
        assert(s1.drop_last() =~= s1.remove(s1.len() - 1));
        assert(s1.drop_last().to_multiset() =~= s2.remove(k).to_multiset());
        lemma_weight_upto_permutation(s1.drop_last(), s2.remove(k), x, d);
        lemma_weight_upto_remove(s2, x, d, k);
    }
}

/// In a sorted sequence without repeats, the weight at or before the entry at
/// position `q` is the weight of the first `q + 1` entries.
pub proof fn lemma_weight_upto_sorted(s: Seq<(u64, u64)>, q: int, d: Seq<int>)
    requires
        sorted_pairs(s),
        s.no_duplicates(),
        0 <= q < s.len(),
    ensures
        weight_upto(s, s[q], d) == prefix_weight(s, q + 1, d),
{
    lemma_weight_upto_sorted_take(s, q, d, s.len() as int);
    assert(s.take(s.len() as int) =~= s);
}

proof fn lemma_weight_upto_sorted_take(s: Seq<(u64, u64)>, q: int, d: Seq<int>, m: int)
    requires
        sorted_pairs(s),
        s.no_duplicates(),
        0 <= q < s.len(),
        0 <= m <= s.len(),
    ensures
        weight_upto(s.take(m), s[q], d) == prefix_weight(s, if m < q + 1 { m } else { q + 1 }, d),
    decreases m,
{
    if m > 0 {
        lemma_weight_upto_sorted_take(s, q, d, m - 1);
        assert(s.take(m).drop_last() =~= s.take(m - 1));
        assert(s.take(m).last() == s[m - 1]);
        if m - 1 > q {
            assert(s[m - 1] != s[q]);
            assert(pair_le(s[q], s[m - 1]));
            assert(!pair_le(s[m - 1], s[q]));
        } else {
            assert(pair_le(s[m - 1], s[q]));
            assert(prefix_weight(s, m, d) == prefix_weight(s, m - 1, d) + weight(d, s[m - 1].1));
        }
    }
}

} // verus!
