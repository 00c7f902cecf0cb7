//! Counting the entries of a coefficient sequence equal to a value.
use vstd::prelude::*;

verus! {

/// The number of entries of `s` equal to `v`.
pub open spec fn count(s: Seq<i32>, v: i32) -> nat
    decreases s.len(),
{
    if s.len() == 0 {
        0
    } else {
        (if s[0] == v { 1nat } else { 0nat }) + count(s.drop_first(), v)
    }
}

/// Writing `w` at position `i` moves one entry from `s[i]`'s count to
/// `w`'s.
pub proof fn lemma_count_update(s: Seq<i32>, i: int, w: i32, v: i32)
    requires
        0 <= i < s.len(),
    ensures
        count(s.update(i, w), v) as int == count(s, v) as int - (if s[i] == v { 1int } else { 0 }) + (if w == v { 1int } else { 0 }),
    decreases s.len(),
{
    if i > 0 {
        lemma_count_update(s.drop_first(), i - 1, w, v);
        assert(s.update(i, w).drop_first() =~= s.drop_first().update(i - 1, w));
    } else {
        assert(s.update(i, w).drop_first() =~= s.drop_first());
    }
}

/// Counts add over a concatenation.
pub proof fn lemma_count_split(a: Seq<i32>, b: Seq<i32>, v: i32)
    ensures
        count(a + b, v) == count(a, v) + count(b, v),
    decreases a.len(),
{
    if a.len() > 0 {
        lemma_count_split(a.drop_first(), b, v);
        assert((a + b).drop_first() =~= a.drop_first() + b);
    } else {
        assert(a + b =~= b);
    }
}

/// The entries of a sequence of -1, 0 and 1 are counted by these three
/// values.
pub proof fn lemma_count_ternary(s: Seq<i32>)
    requires
        forall|j: int| 0 <= j < s.len() ==> -1 <= #[trigger] s[j] <= 1,
    ensures
        count(s, 0) + count(s, 1) + count(s, -1i32) == s.len(),
    decreases s.len(),
{
    if s.len() > 0 {
        lemma_count_ternary(s.drop_first());
    }
}

/// A sequence without `v` counts no `v`.
pub proof fn lemma_count_absent(s: Seq<i32>, v: i32)
    requires
        forall|j: int| 0 <= j < s.len() ==> #[trigger] s[j] != v,
    ensures
        count(s, v) == 0,
    decreases s.len(),
{
    if s.len() > 0 {
        lemma_count_absent(s.drop_first(), v);
    }
}

/// Count of `v` in `s[j..]` is that of `s[j+1..]` plus one when `s[j]` is
/// `v`.
pub proof fn lemma_count_step(s: Seq<i32>, j: int, e: int, v: i32)
    requires
        0 <= j < e <= s.len(),
    ensures
        count(s.subrange(j, e), v) == (if s[j] == v { 1nat } else { 0nat }) + count(s.subrange(j + 1, e), v),
{
    assert(s.subrange(j, e).drop_first() =~= s.subrange(j + 1, e));
}

} // verus!

verus! {

/// The count of `v` is that of all but the last entry, plus the last.
pub proof fn lemma_count_last(s: Seq<i32>, v: i32)
    requires
        s.len() > 0,
    ensures
        count(s, v) == count(s.drop_last(), v) + (if s.last() == v { 1nat } else { 0nat }),
{
    lemma_count_split(s.drop_last(), seq![s.last()], v);
    assert(s.drop_last() + seq![s.last()] =~= s);
    assert(seq![s.last()].drop_first() =~= Seq::<i32>::empty());
    assert(count(Seq::<i32>::empty(), v) == 0);
    assert(count(seq![s.last()], v) == (if s.last() == v { 1nat } else { 0nat }));
}

/// There are as many positions of `v` as entries equal to `v`.
pub proof fn lemma_positions_len(s: Seq<i32>, v: i32)
    ensures
        crate::poly::positions(s, v).len() == count(s, v),
    decreases s.len(),
{
    if s.len() > 0 {
        lemma_positions_len(s.drop_last(), v);
        lemma_count_last(s, v);
    }
}

} // verus!
