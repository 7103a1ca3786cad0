use vstd::prelude::*;

verus! {

/// The 1-based position of the first element of `s` that satisfies `pred`,
/// or 0 if there is none.
pub open spec fn first_index<T>(s: Seq<T>, pred: spec_fn(T) -> bool) -> int
    decreases s.len(),
{
    if s.len() == 0 {
        0
    } else if first_index(s.drop_last(), pred) != 0 {
        first_index(s.drop_last(), pred)
    } else if pred(s.last()) {
        s.len() as int
    } else {
        0
    }
}

/// `first_index` is 0 exactly when no element satisfies the predicate;
/// otherwise it names an element that does, after elements that do not.
pub proof fn lemma_first_index<T>(s: Seq<T>, pred: spec_fn(T) -> bool)
    ensures
        0 <= first_index(s, pred) <= s.len(),
        first_index(s, pred) == 0 ==> forall|i: int| 0 <= i < s.len() ==> !pred(#[trigger] s[i]),
        first_index(s, pred) != 0 ==> pred(s[first_index(s, pred) - 1]),
        forall|i: int| 0 <= i < first_index(s, pred) - 1 ==> !pred(#[trigger] s[i]),
    decreases s.len(),
{
    if s.len() > 0 {
        let t = s.drop_last();
        lemma_first_index(t, pred);
        assert forall|i: int| 0 <= i < s.len() - 1 implies s[i] == t[i] by {}
        if first_index(t, pred) != 0 {
            assert(s[first_index(t, pred) - 1] == t[first_index(t, pred) - 1]);
            assert forall|i: int| 0 <= i < first_index(t, pred) - 1 implies !pred(
                #[trigger] s[i],
            ) by {
                assert(s[i] == t[i]);
            }
        } else {
            assert forall|i: int| 0 <= i < s.len() - 1 implies !pred(#[trigger] s[i]) by {
                assert(s[i] == t[i]);
            }
        }
    }
}

/// An element that satisfies the predicate and follows only elements that do
/// not is the one `first_index` names.
pub proof fn lemma_first_index_is<T>(s: Seq<T>, pred: spec_fn(T) -> bool, k: int)
    requires
        0 <= k <= s.len(),
        k != 0 ==> pred(s[k - 1]),
        forall|i: int| 0 <= i < (if k == 0 { s.len() as int } else { k - 1 }) ==> !pred(
            #[trigger] s[i],
        ),
    ensures
        first_index(s, pred) == k,
{
    lemma_first_index(s, pred);
    let r = first_index(s, pred);
    if r != 0 && k != 0 {
        if r < k {
            assert(!pred(s[r - 1]));
        }
        if k < r {
            assert(!pred(s[k - 1]));
        }
    } else if r != 0 {
        assert(!pred(s[r - 1]));
    } else if k != 0 {
        assert(!pred(s[k - 1]));
    }
}

/// A function that sends the numbers below `n` to different numbers below
/// `n` comes by every number below `n`.
pub proof fn lemma_injective_covers(f: spec_fn(int) -> int, n: int, k: int) -> (j: int)
    requires
        forall|a: int| 0 <= a < n ==> 0 <= #[trigger] f(a) < n,
        forall|a: int, b: int| 0 <= a < b < n ==> #[trigger] f(a) != #[trigger] f(b),
        0 <= k < n,
    ensures
        0 <= j < n,
        f(j) == k,
    decreases n,
{
    if exists|a: int| 0 <= a < n && #[trigger] f(a) == k {
        choose|a: int| 0 <= a < n && #[trigger] f(a) == k
    } else {
        // Without `k` the values below `n` are as many as the numbers below
        // `n - 1`, among which the first `n - 1` arguments would then leave
        // none for the last.
        let g = |a: int|
            if f(a) > k {
                f(a) - 1
            } else {
                f(a)
            };
        assert forall|a: int| 0 <= a < n - 1 implies 0 <= #[trigger] g(a) < n - 1 by {
            assert(f(a) != k);
        }
        assert forall|a: int, b: int| 0 <= a < b < n - 1 implies #[trigger] g(a) != #[trigger] g(
            b,
        ) by {
            assert(f(a) != f(b));
            assert(f(a) != k && f(b) != k);
        }
        assert(f(n - 1) != k);
        assert(0 <= f(n - 1) < n);
        let last = g(n - 1);
        assert(0 <= last < n - 1);
        let a = lemma_injective_covers(g, n - 1, last);
        assert(f(a) != f(n - 1));
        assert(f(a) != k);
        assert(false);
        0
    }
}

/// A function cannot send the numbers below `n` to different numbers below
/// `m` unless `n` is at most `m`.
pub proof fn lemma_injective_bound(f: spec_fn(int) -> int, n: int, m: int)
    requires
        0 <= m,
        forall|a: int| 0 <= a < n ==> 0 <= #[trigger] f(a) < m,
        forall|a: int, b: int| 0 <= a < b < n ==> #[trigger] f(a) != #[trigger] f(b),
    ensures
        n <= m,
{
    if n > m {
        // Of the first `m + 1` numbers none is sent to `m`, which cannot be.
        let j = lemma_injective_covers(f, m + 1, m);
        assert(f(j) < m);
    }
}

} // verus!
