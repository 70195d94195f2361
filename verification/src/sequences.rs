//! Sequences put together from numbered parts.

use vstd::prelude::*;

verus! {

/// The parts `part(0)`, ..., `part(n - 1)` one after another.
pub open spec fn concat_over<T>(n: nat, part: spec_fn(int) -> Seq<T>) -> Seq<T>
    decreases n,
{
    if n == 0 {
        Seq::empty()
    } else {
        concat_over((n - 1) as nat, part) + part(n - 1)
    }
}

/// Every element of a concatenation comes from one of its parts.
pub proof fn lemma_concat_element<T>(n: nat, part: spec_fn(int) -> Seq<T>, at: int) -> (found: (
    int,
    int,
))
    requires
        0 <= at < concat_over(n, part).len(),
    ensures
        0 <= found.0 < n,
        0 <= found.1 < part(found.0).len(),
        concat_over(n, part)[at] == part(found.0)[found.1],
    decreases n,
{
    let before = concat_over((n - 1) as nat, part);
    if at < before.len() {
        lemma_concat_element((n - 1) as nat, part, at)
    } else {
        (n - 1, at - before.len())
    }
}

/// Every element of a part is an element of the concatenation.
pub proof fn lemma_concat_holds<T>(n: nat, part: spec_fn(int) -> Seq<T>, k: int, j: int)
    requires
        0 <= k < n,
        0 <= j < part(k).len(),
    ensures
        concat_over(n, part).contains(part(k)[j]),
    decreases n,
{
    let before = concat_over((n - 1) as nat, part);
    if k == n - 1 {
        assert(concat_over(n, part)[before.len() + j] == part(k)[j]);
    } else {
        lemma_concat_holds((n - 1) as nat, part, k, j);
        let at = choose|at: int| 0 <= at < before.len() && before[at] == part(k)[j];
        assert(concat_over(n, part)[at] == part(k)[j]);
    }
}

/// A concatenation holds nothing twice if no part does and no two parts hold
/// the same.
pub proof fn lemma_concat_no_duplicates<T>(n: nat, part: spec_fn(int) -> Seq<T>)
    requires
        forall|k: int| 0 <= k < n ==> (#[trigger] part(k)).no_duplicates(),
        forall|k: int, l: int, i: int, j: int|
            0 <= k < l < n && 0 <= i < part(k).len() && 0 <= j < part(l).len() ==> #[trigger] part(
                k,
            )[i] != #[trigger] part(l)[j],
    ensures
        concat_over(n, part).no_duplicates(),
    decreases n,
{
    if n > 0 {
        lemma_concat_no_duplicates((n - 1) as nat, part);
        let before = concat_over((n - 1) as nat, part);
        let last = part(n - 1);
        let all = concat_over(n, part);
        assert(last.no_duplicates());
        assert forall|a: int, b: int| 0 <= a < b < all.len() implies all[a] != all[b] by {
            if b < before.len() {
                assert(before[a] != before[b]);
            } else if a >= before.len() {
                assert(last[a - before.len()] != last[b - before.len()]);
            } else {
                let (k, i) = lemma_concat_element((n - 1) as nat, part, a);
                assert(part(k)[i] != part(n - 1)[b - before.len()]);
            }
        }
    }
}

} // verus!
