//! Stable chronological sorting by date strings.
use vstd::prelude::*;
use crate::date::{date_str_order, date_strings_order, lemma_date_str_order};
use crate::model::FactView;

verus! {

/// `p` lists each of `0..n` exactly once.
pub open spec fn is_permutation(p: Seq<usize>, n: nat) -> bool {
    &&& p.len() == n
    &&& forall|i: int| 0 <= i < p.len() ==> #[trigger] p[i] < n
    &&& forall|i: int, j: int| 0 <= i < j < p.len() ==> p[i] != p[j]
}

/// `p` puts the dates `keys` in chronological order (unparseable dates
/// last), keeping the original order of dates that tie.
pub open spec fn stably_sorted(keys: Seq<Seq<char>>, p: Seq<usize>) -> bool {
    &&& is_permutation(p, keys.len())
    &&& forall|i: int, j: int|
        0 <= i < j < p.len() ==> date_str_order(keys[p[i] as int], keys[p[j] as int]) <= 0
    &&& forall|i: int, j: int|
        0 <= i < j < p.len() && date_str_order(keys[p[i] as int], keys[p[j] as int]) == 0 ==> p[i]
            < p[j]
}

/// The order in which to list items with the given dates: chronological,
/// unparseable dates last, ties in their original order.
pub fn chronological_order(keys: &Vec<String>) -> (p: Vec<usize>)
    ensures
        stably_sorted(keys.deep_view(), p@),
{
    let ghost ks = keys.deep_view();
    let mut out: Vec<usize> = Vec::new();
    let mut k: usize = 0;
    while k < keys.len()
        invariant
            ks == keys.deep_view(),
            k <= keys.len(),
            out.len() == k,
            forall|i: int| 0 <= i < out.len() ==> #[trigger] out@[i] < k,
            forall|i: int, j: int| 0 <= i < j < out.len() ==> out@[i] != out@[j],
            forall|i: int, j: int|
                0 <= i < j < out.len() ==> date_str_order(ks[out@[i] as int], ks[out@[j] as int])
                    <= 0,
            forall|i: int, j: int|
                0 <= i < j < out.len() && date_str_order(ks[out@[i] as int], ks[out@[j] as int])
                    == 0 ==> out@[i] < out@[j],
        decreases keys.len() - k,
    {
        let mut pos: usize = 0;
        while pos < out.len() && date_strings_order(keys[k].as_str(), keys[out[pos]].as_str()) >= 0
            invariant
                ks == keys.deep_view(),
                k < keys.len(),
                pos <= out.len(),
                forall|i: int| 0 <= i < out.len() ==> #[trigger] out@[i] < k,
                forall|q: int| 0 <= q < pos ==> date_str_order(ks[k as int], ks[out@[q] as int]) >= 0,
            decreases out.len() - pos,
        {
            assert(keys@[out@[pos as int] as int]@ == ks[out@[pos as int] as int]);
            pos += 1;
        }
        if pos < out.len() {
            assert(keys@[out@[pos as int] as int]@ == ks[out@[pos as int] as int]);
        }
        assert(keys@[k as int]@ == ks[k as int]);
        let ghost before = out@;
        out.insert(pos, k);
        proof {
            assert(out@ == before.insert(pos as int, k));
            assert forall|i: int, j: int| 0 <= i < j < out.len() implies date_str_order(
                ks[out@[i] as int],
                ks[out@[j] as int],
            ) <= 0 && (date_str_order(ks[out@[i] as int], ks[out@[j] as int]) == 0 ==> out@[i]
                < out@[j]) by {
                let a = out@[i] as int;
                let b = out@[j] as int;
                if i < pos && j == pos {
                    lemma_date_str_order(ks[a], ks[k as int], ks[k as int]);
                    assert(before[i] == out@[i]);
                } else if i == pos && j > pos {
                    let m = before[pos as int] as int;
                    assert(before[j - 1] == out@[j]);
                    lemma_date_str_order(ks[k as int], ks[m], ks[b]);
                    lemma_date_str_order(ks[m], ks[b], ks[k as int]);
                    lemma_date_str_order(ks[b], ks[k as int], ks[m]);
                    if j - 1 > pos {
                        assert(date_str_order(ks[m], ks[b]) <= 0);
                    }
                } else if j < pos {
                    assert(before[i] == out@[i] && before[j] == out@[j]);
                } else if i < pos && j > pos {
                    assert(before[i] == out@[i] && before[j - 1] == out@[j]);
                } else {
                    assert(before[i - 1] == out@[i] && before[j - 1] == out@[j]);
                }
            }
            assert forall|i: int| 0 <= i < out.len() implies #[trigger] out@[i] < k + 1 by {
                if i < pos {
                    assert(before[i] == out@[i]);
                } else if i > pos {
                    assert(before[i - 1] == out@[i]);
                }
            }
            assert forall|i: int, j: int| 0 <= i < j < out.len() implies out@[i] != out@[j] by {
                if i < pos && j > pos {
                    assert(before[i] == out@[i] && before[j - 1] == out@[j]);
                } else if j < pos {
                    assert(before[i] == out@[i] && before[j] == out@[j]);
                } else if i > pos {
                    assert(before[i - 1] == out@[i] && before[j - 1] == out@[j]);
                } else if i == pos {
                    assert(before[j - 1] == out@[j]);
                } else {
                    assert(before[i] == out@[i]);
                }
            }
        }
        k += 1;
    }
    out
}


/// The items of `s` in the order `p` lists their positions.
pub open spec fn permuted<T>(s: Seq<T>, p: Seq<usize>) -> Seq<T> {
    Seq::new(p.len(), |i: int| s[p[i] as int])
}

/// The dates of a list of facts.
pub open spec fn fact_dates(s: Seq<FactView>) -> Seq<Seq<char>> {
    s.map_values(|f: FactView| f.date)
}

/// `out` is `s` sorted by date (unparseable dates last), stable for ties.
pub open spec fn date_sorted(s: Seq<FactView>, out: Seq<FactView>) -> bool {
    exists|p: Seq<usize>| stably_sorted(fact_dates(s), p) && out == permuted(s, p)
}

} // verus!
