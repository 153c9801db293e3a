use vstd::prelude::*;

verus! {

/// Number of elements of `s` that `sel` picks.
pub open spec fn count_where<T>(s: Seq<T>, sel: spec_fn(T) -> bool) -> nat
    decreases s.len(),
{
    if s.len() == 0 {
        0
    } else {
        count_where(s.drop_last(), sel) + if sel(s.last()) { 1nat } else { 0nat }
    }
}

/// Sum of `f` over the elements of `s` that `sel` picks.
pub open spec fn sum_where<T>(s: Seq<T>, sel: spec_fn(T) -> bool, f: spec_fn(T) -> u64) -> nat
    decreases s.len(),
{
    if s.len() == 0 {
        0
    } else {
        sum_where(s.drop_last(), sel, f) + if sel(s.last()) { f(s.last()) as nat } else { 0nat }
    }
}

/// Largest `f` over the elements that `sel` picks (0 when it picks none).
pub open spec fn max_where<T>(s: Seq<T>, sel: spec_fn(T) -> bool, f: spec_fn(T) -> u64) -> u64
    decreases s.len(),
{
    if s.len() == 0 {
        0
    } else {
        let m = max_where(s.drop_last(), sel, f);
        if sel(s.last()) && f(s.last()) > m { f(s.last()) } else { m }
    }
}

/// Smallest `f` over the elements that `sel` picks (`u64::MAX` when it picks none).
pub open spec fn min_where<T>(s: Seq<T>, sel: spec_fn(T) -> bool, f: spec_fn(T) -> u64) -> u64
    decreases s.len(),
{
    if s.len() == 0 {
        u64::MAX
    } else {
        let m = min_where(s.drop_last(), sel, f);
        if sel(s.last()) && f(s.last()) < m { f(s.last()) } else { m }
    }
}

/// Mean rounded down, 0 for an empty selection.
pub open spec fn mean(sum: nat, n: nat) -> u64 {
    if n == 0 { 0 } else { (sum / n) as u64 }
}

/// `x`, or `u64::MAX` when it does not fit.
pub open spec fn saturate(x: nat) -> u64 {
    if x > u64::MAX { u64::MAX } else { x as u64 }
}

/// An element that `sel` picks makes the selection non-empty.
pub proof fn lemma_picked_counts<T>(s: Seq<T>, sel: spec_fn(T) -> bool, k: int)
    requires
        0 <= k < s.len(),
        sel(s[k]),
    ensures
        count_where(s, sel) > 0,
    decreases s.len(),
{
    if k < s.len() - 1 {
        lemma_picked_counts(s.drop_last(), sel, k);
    }
}

/// A non-empty selection has a picked element.
pub proof fn lemma_count_has_witness<T>(s: Seq<T>, sel: spec_fn(T) -> bool)
    requires
        count_where(s, sel) > 0,
    ensures
        exists|k: int| 0 <= k < s.len() && sel(#[trigger] s[k]),
    decreases s.len(),
{
    if !sel(s.last()) {
        lemma_count_has_witness(s.drop_last(), sel);
        let k = choose|k: int| 0 <= k < s.drop_last().len() && sel(#[trigger] s.drop_last()[k]);
        assert(s[k] == s.drop_last()[k]);
    } else {
        assert(sel(s[s.len() - 1]));
    }
}

} // verus!
