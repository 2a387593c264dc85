//! Two-pointer partition of primitive indices around a split.

use vstd::prelude::*;

verus! {

/// `s` with the entries at `i` and `j` exchanged.
pub open spec fn swap_entries<T>(s: Seq<T>, i: int, j: int) -> Seq<T> {
    s.update(i, s[j]).update(j, s[i])
}

/// The two-pointer partition: `l` advances over entries flagged left; an entry flagged right
/// is exchanged with the last unexamined entry, which `r` then excludes.  Returns the
/// rearranged indices and flags, and the final split point.
pub open spec fn partition_run(s: Seq<u32>, f: Seq<bool>, l: int, r: int) -> (Seq<u32>, Seq<bool>, int)
    decreases r - l,
{
    if l >= r {
        (s, f, l)
    } else if f[l] {
        partition_run(s, f, l + 1, r)
    } else {
        partition_run(swap_entries(s, l, r - 1), swap_entries(f, l, r - 1), l, r - 1)
    }
}

/// Each index paired with its flag.
pub open spec fn flagged(s: Seq<u32>, f: Seq<bool>) -> Seq<(u32, bool)> {
    Seq::new(s.len(), |i: int| (s[i], f[i]))
}

/// What the partition of indices `s` with flags `f` returns.
pub open spec fn partition_result(s: Seq<u32>, f: Seq<bool>) -> (Seq<u32>, Seq<bool>, int) {
    partition_run(s, f, 0, s.len() as int)
}

/// Exchanging two entries keeps the multiset of entries.
pub proof fn lemma_swap_multiset<T>(s: Seq<T>, i: int, j: int)
    requires
        0 <= i < s.len(),
        0 <= j < s.len(),
    ensures
        swap_entries(s, i, j).to_multiset() == s.to_multiset(),
        swap_entries(s, i, j).len() == s.len(),
{
    broadcast use vstd::seq_lib::to_multiset_update, vstd::seq_lib::to_multiset_contains, vstd::multiset::group_multiset_axioms;

    let s1 = s.update(i, s[j]);
    assert(s1.to_multiset() == s.to_multiset().insert(s[j]).remove(s[i]));
    assert(s1.update(j, s[i]).to_multiset() == s1.to_multiset().insert(s[i]).remove(s1[j]));
    if i == j {
        assert(swap_entries(s, i, j) =~= s);
    } else {
        assert(s1[j] == s[j]);
        assert(s.contains(s[i]));
        assert(s.to_multiset().contains(s[i]));
        let m = s.to_multiset();
        assert forall|v: T| #[trigger] m.insert(s[j]).remove(s[i]).insert(s[i]).remove(s[j]).count(v) == m.count(v) by {
            assert(m.insert(s[j]).count(s[i]) >= 1);
        }
        assert(m.insert(s[j]).remove(s[i]).insert(s[i]).remove(s[j]) =~= m);
    }
}

/// The partition rearranges the entries, puts the entries flagged left before the split
/// point and the others after it.
pub proof fn lemma_partition_run(s: Seq<u32>, f: Seq<bool>, l: int, r: int)
    requires
        s.len() == f.len(),
        0 <= l <= r <= s.len(),
        forall|i: int| 0 <= i < l ==> #[trigger] f[i],
        forall|i: int| r <= i < s.len() ==> !#[trigger] f[i],
    ensures
        ({
            let (s2, f2, m) = partition_run(s, f, l, r);
            &&& s2.len() == s.len()
            &&& f2.len() == f.len()
            &&& s2.to_multiset() == s.to_multiset()
            &&& flagged(s2, f2).to_multiset() == flagged(s, f).to_multiset()
            &&& l <= m <= r
            &&& forall|i: int| 0 <= i < m ==> #[trigger] f2[i]
            &&& forall|i: int| m <= i < s.len() ==> !#[trigger] f2[i]
        }),
    decreases r - l,
{
    if l >= r {
    } else if f[l] {
        lemma_partition_run(s, f, l + 1, r);
    } else {
        let s1 = swap_entries(s, l, r - 1);
        let f1 = swap_entries(f, l, r - 1);
        lemma_swap_multiset(s, l, r - 1);
        lemma_swap_multiset(f, l, r - 1);
        lemma_swap_multiset(flagged(s, f), l, r - 1);
        assert(flagged(s1, f1) =~= swap_entries(flagged(s, f), l, r - 1));
        lemma_partition_run(s1, f1, l, r - 1);
    }
}

/// The partition rearranges the (index, flag) pairs, each index keeping its flag, so that
/// the pairs flagged left come first, up to the returned split point, and all others after.
pub proof fn lemma_partition_rearranges(s: Seq<u32>, f: Seq<bool>)
    requires
        s.len() == f.len(),
    ensures
        ({
            let (s2, f2, m) = partition_result(s, f);
            &&& flagged(s2, f2).to_multiset() == flagged(s, f).to_multiset()
            &&& 0 <= m <= s.len()
            &&& forall|i: int| 0 <= i < m ==> #[trigger] f2[i]
            &&& forall|i: int| m <= i < s.len() ==> !#[trigger] f2[i]
        }),
{
    lemma_partition_run(s, f, 0, s.len() as int);
}

/// Partition `indices` so that the entries flagged left come first; `flags` is rearranged
/// alongside.  Returns the number of entries flagged left.
pub fn partition_primitives(indices: &mut Vec<u32>, flags: &mut Vec<bool>) -> (mid: usize)
    requires
        old(indices)@.len() == old(flags)@.len(),
    ensures
        (final(indices)@, final(flags)@, mid as int) == partition_result(old(indices)@, old(flags)@),
{
    let ghost s0 = indices@;
    let ghost f0 = flags@;
    let mut left: usize = 0;
    let mut right: usize = indices.len();
    while left < right
        invariant
            indices@.len() == flags@.len() == s0.len(),
            left <= right <= s0.len(),
            partition_run(indices@, flags@, left as int, right as int) == partition_result(s0, f0),
        decreases right - left,
    {
        if flags[left] {
            left = left + 1;
        } else {
            right = right - 1;
            let a = indices[left];
            let b = indices[right];
            indices.set(left, b);
            indices.set(right, a);
            let fa = flags[left];
            let fb = flags[right];
            flags.set(left, fb);
            flags.set(right, fa);
        }
    }
    left
}

} // verus!
