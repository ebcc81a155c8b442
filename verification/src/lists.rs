//! Sequences built piece by piece: the concatenation of per-item pieces.
use vstd::prelude::*;

verus! {

/// The pieces `f(0)`, `f(1)`, ..., `f(n - 1)` joined in order.
pub open spec fn concat<T>(n: nat, f: spec_fn(int) -> Seq<T>) -> Seq<T>
    decreases n,
{
    if n == 0 {
        Seq::empty()
    } else {
        concat((n - 1) as nat, f) + f(n - 1)
    }
}

/// A concatenation is empty exactly when every piece is.
pub proof fn lemma_concat_empty<T>(n: nat, f: spec_fn(int) -> Seq<T>)
    ensures
        concat(n, f).len() == 0 <==> forall|i: int| 0 <= i < n ==> #[trigger] f(i).len() == 0,
    decreases n,
{
    if n > 0 {
        lemma_concat_empty((n - 1) as nat, f);
    }
}

/// Each element of a concatenation comes from some piece, and each element of
/// a piece is in the concatenation.
pub proof fn lemma_concat_contains<T>(n: nat, f: spec_fn(int) -> Seq<T>, x: T)
    ensures
        concat(n, f).contains(x) <==> exists|i: int| 0 <= i < n && #[trigger] f(i).contains(x),
    decreases n,
{
    if n > 0 {
        lemma_concat_contains((n - 1) as nat, f, x);
        let prev = concat((n - 1) as nat, f);
        let last = f(n - 1);
        if (prev + last).contains(x) {
            let k = choose|k: int| 0 <= k < (prev + last).len() && (prev + last)[k] == x;
            if k < prev.len() {
                assert(prev[k] == x);
                assert(prev.contains(x));
            } else {
                assert(last[k - prev.len()] == x);
                assert(last.contains(x));
            }
        }
        if exists|i: int| 0 <= i < n && #[trigger] f(i).contains(x) {
            let i = choose|i: int| 0 <= i < n && #[trigger] f(i).contains(x);
            if i < n - 1 {
                let k = choose|k: int| 0 <= k < prev.len() && prev[k] == x;
                assert((prev + last)[k] == x);
            } else {
                let k = choose|k: int| 0 <= k < last.len() && last[k] == x;
                assert((prev + last)[prev.len() + k] == x);
            }
        }
    }
}

/// Each piece `f(k)`, `k < n`, stands whole in the concatenation, at the
/// combined length of the pieces before it.
pub proof fn lemma_concat_piece<T>(n: nat, f: spec_fn(int) -> Seq<T>, k: int)
    requires
        0 <= k < n,
    ensures
        concat(k as nat, f).len() + f(k).len() <= concat(n, f).len(),
        concat(n, f).subrange(concat(k as nat, f).len() as int, (concat(k as nat, f).len() + f(k).len()) as int) == f(k),
    decreases n,
{
    let prev = concat((n - 1) as nat, f);
    if k == n - 1 {
        assert((prev + f(k)).subrange(prev.len() as int, (prev.len() + f(k).len()) as int) =~= f(k));
    } else {
        lemma_concat_piece((n - 1) as nat, f, k);
        let at = concat(k as nat, f).len() as int;
        let end: int = at + f(k).len();
        assert((prev + f(n - 1)).subrange(at, end) =~= prev.subrange(at, end));
    }
}

/// Concatenations of pieces that agree below `n` are equal.
pub proof fn lemma_concat_ext<T>(n: nat, f: spec_fn(int) -> Seq<T>, g: spec_fn(int) -> Seq<T>)
    requires
        forall|i: int| 0 <= i < n ==> #[trigger] f(i) == g(i),
    ensures
        concat(n, f) == concat(n, g),
    decreases n,
{
    if n > 0 {
        lemma_concat_ext((n - 1) as nat, f, g);
    }
}


/// What holds of every element of two sequences holds of every element of
/// their concatenation.
pub proof fn lemma_all_add<T>(a: Seq<T>, b: Seq<T>, pred: spec_fn(T) -> bool)
    requires
        forall|j: int| 0 <= j < a.len() ==> pred(#[trigger] a[j]),
        forall|j: int| 0 <= j < b.len() ==> pred(#[trigger] b[j]),
    ensures
        forall|j: int| 0 <= j < (a + b).len() ==> pred(#[trigger] (a + b)[j]),
{
    assert forall|j: int| 0 <= j < (a + b).len() implies pred(#[trigger] (a + b)[j]) by {
        if j < a.len() {
            assert((a + b)[j] == a[j]);
        } else {
            assert((a + b)[j] == b[j - a.len()]);
        }
    }
}

/// What holds of every element of every piece holds of every element of
/// their concatenation.
pub proof fn lemma_concat_all<T>(n: nat, f: spec_fn(int) -> Seq<T>, pred: spec_fn(T) -> bool)
    requires
        forall|i: int, j: int| 0 <= i < n && 0 <= j < f(i).len() ==> pred(#[trigger] f(i)[j]),
    ensures
        forall|j: int| 0 <= j < concat(n, f).len() ==> pred(#[trigger] concat(n, f)[j]),
    decreases n,
{
    if n > 0 {
        lemma_concat_all((n - 1) as nat, f, pred);
        let last = f(n - 1);
        assert forall|j: int| 0 <= j < last.len() implies pred(#[trigger] last[j]) by {
            assert(f(n - 1)[j] == last[j]);
        }
        lemma_all_add(concat((n - 1) as nat, f), last, pred);
    }
}

} // verus!
