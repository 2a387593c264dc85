//! Benchmark configuration and allocation bookkeeping.

use vstd::prelude::*;
use vstd::string::StringExecFns;

verus! {

/// Performance test configuration: a name and warmup and measured iteration counts.
pub struct PerfTest {
    name: String,
    warmup_iterations: usize,
    test_iterations: usize,
}

impl PerfTest {
    pub closed spec fn spec_name(self) -> Seq<char> {
        self.name@
    }

    pub closed spec fn spec_warmup(self) -> usize {
        self.warmup_iterations
    }

    pub closed spec fn spec_iterations(self) -> usize {
        self.test_iterations
    }

    /// A test with 10 warmup and 100 measured iterations.
    pub fn new(name: &str) -> (t: Self)
        ensures
            t.spec_name() == name@,
            t.spec_warmup() == 10,
            t.spec_iterations() == 100,
    {
        Self { name: String::from_str(name), warmup_iterations: 10, test_iterations: 100 }
    }

    /// Set the number of warmup iterations.
    pub fn with_warmup(self, iterations: usize) -> (t: Self)
        ensures
            t.spec_name() == self.spec_name(),
            t.spec_warmup() == iterations,
            t.spec_iterations() == self.spec_iterations(),
    {
        Self { name: self.name, warmup_iterations: iterations, test_iterations: self.test_iterations }
    }

    /// Set the number of measured iterations.
    pub fn with_iterations(self, iterations: usize) -> (t: Self)
        ensures
            t.spec_name() == self.spec_name(),
            t.spec_warmup() == self.spec_warmup(),
            t.spec_iterations() == iterations,
    {
        Self { name: self.name, warmup_iterations: self.warmup_iterations, test_iterations: iterations }
    }

    pub fn name(&self) -> (n: &str)
        ensures
            n@ == self.spec_name(),
    {
        self.name.as_str()
    }

    pub fn warmup_iterations(&self) -> (n: usize)
        ensures
            n == self.spec_warmup(),
    {
        self.warmup_iterations
    }

    pub fn test_iterations(&self) -> (n: usize)
        ensures
            n == self.spec_iterations(),
    {
        self.test_iterations
    }
}

/// Allocation counter for memory profiling.
pub struct MemoryProfile {
    allocations: usize,
    total_bytes: usize,
}

impl MemoryProfile {
    pub closed spec fn spec_allocations(self) -> usize {
        self.allocations
    }

    pub closed spec fn spec_total_bytes(self) -> usize {
        self.total_bytes
    }

    /// No allocations recorded yet.
    pub fn new() -> (p: Self)
        ensures
            p.spec_allocations() == 0,
            p.spec_total_bytes() == 0,
    {
        Self { allocations: 0, total_bytes: 0 }
    }

    /// Record one allocation of `bytes` bytes.
    pub fn record_allocation(&mut self, bytes: usize)
        requires
            old(self).spec_allocations() < usize::MAX,
            old(self).spec_total_bytes() + bytes <= usize::MAX,
        ensures
            final(self).spec_allocations() == old(self).spec_allocations() + 1,
            final(self).spec_total_bytes() == old(self).spec_total_bytes() + bytes,
    {
        self.allocations = self.allocations + 1;
        self.total_bytes = self.total_bytes + bytes;
    }

    /// Number of allocations recorded.
    pub fn allocations(&self) -> (n: usize)
        ensures
            n == self.spec_allocations(),
    {
        self.allocations
    }

    /// Total bytes recorded.
    pub fn total_bytes(&self) -> (n: usize)
        ensures
            n == self.spec_total_bytes(),
    {
        self.total_bytes
    }
}

/// Longest time a `std::time::Duration` holds, in nanoseconds.
pub const MAX_DURATION_NANOS: u128 = 18446744073709551615999999999;

/// Sum of the values.
pub open spec fn sum_of(s: Seq<u128>) -> int
    decreases s.len(),
{
    if s.len() == 0 {
        0
    } else {
        sum_of(s.drop_last()) + s.last()
    }
}

/// Every value is at least `m`.
pub open spec fn is_lower_bound(s: Seq<u128>, m: u128) -> bool {
    forall|i: int| 0 <= i < s.len() ==> m <= #[trigger] s[i]
}

/// Every value is at most `m`.
pub open spec fn is_upper_bound(s: Seq<u128>, m: u128) -> bool {
    forall|i: int| 0 <= i < s.len() ==> #[trigger] s[i] <= m
}

/// Summary of measured durations, in nanoseconds.
#[derive(Debug, Clone, Copy, PartialEq, Eq, Structural)]
pub struct DurationStats {
    pub count: usize,
    pub total_nanos: u128,
    pub avg_nanos: u128,
    pub min_nanos: u128,
    pub max_nanos: u128,
}

/// Total, mean (rounded down, as `Duration` division does), least and greatest of the
/// measured durations `nanos`.
pub fn duration_stats(nanos: &[u128]) -> (st: DurationStats)
    requires
        0 < nanos@.len() <= u32::MAX,
        sum_of(nanos@) <= MAX_DURATION_NANOS,
    ensures
        st.count == nanos@.len(),
        st.total_nanos == sum_of(nanos@),
        st.avg_nanos == sum_of(nanos@) / (nanos@.len() as int),
        nanos@.contains(st.min_nanos) && is_lower_bound(nanos@, st.min_nanos),
        nanos@.contains(st.max_nanos) && is_upper_bound(nanos@, st.max_nanos),
{
    let n = nanos.len();
    let mut total: u128 = 0;
    let mut lo: u128 = nanos[0];
    let mut hi: u128 = nanos[0];
    let mut lo_at: usize = 0;
    let mut hi_at: usize = 0;
    let mut i: usize = 0;
    while i < n
        invariant
            n == nanos@.len(),
            0 < n <= u32::MAX,
            i <= n,
            sum_of(nanos@) <= MAX_DURATION_NANOS,
            total == sum_of(nanos@.take(i as int)),
            lo_at < n && lo == nanos@[lo_at as int],
            hi_at < n && hi == nanos@[hi_at as int],
            is_lower_bound(nanos@.take(i as int), lo),
            is_upper_bound(nanos@.take(i as int), hi),
        decreases n - i,
    {
        proof {
            assert(nanos@.take(i + 1).drop_last() =~= nanos@.take(i as int));
            lemma_prefix_sum_le(nanos@, i + 1);
        }
        total = total + nanos[i];
        if nanos[i] < lo {
            lo = nanos[i];
            lo_at = i;
        }
        if nanos[i] > hi {
            hi = nanos[i];
            hi_at = i;
        }
        i = i + 1;
        proof {
            assert forall|j: int| 0 <= j < i implies lo <= #[trigger] nanos@.take(i as int)[j] by {
                if j < i - 1 {
                    assert(nanos@.take(i as int)[j] == nanos@.take(i - 1)[j]);
                }
            }
            assert forall|j: int| 0 <= j < i implies #[trigger] nanos@.take(i as int)[j] <= hi by {
                if j < i - 1 {
                    assert(nanos@.take(i as int)[j] == nanos@.take(i - 1)[j]);
                }
            }
        }
    }
    assert(nanos@.take(n as int) =~= nanos@);
    let avg = total / (n as u128);
    DurationStats { count: n, total_nanos: total, avg_nanos: avg, min_nanos: lo, max_nanos: hi }
}

/// The sum of a prefix of non-negative values is at most the whole sum.
pub proof fn lemma_prefix_sum_le(s: Seq<u128>, k: int)
    requires
        0 <= k <= s.len(),
    ensures
        sum_of(s.take(k)) <= sum_of(s),
    decreases s.len() - k,
{
    if k < s.len() {
        lemma_prefix_sum_le(s, k + 1);
        assert(s.take(k + 1).drop_last() =~= s.take(k));
    } else {
        assert(s.take(k) =~= s);
    }
}

/// Position of the first least value, `None` for no values: the fastest of a suite.
pub fn first_min_index(values: &[u128]) -> (r: Option<usize>)
    ensures
        r is None <==> values@.len() == 0,
        r matches Some(k) ==> k < values@.len() && is_lower_bound(values@, values@[k as int])
            && forall|j: int| 0 <= j < k ==> values@[k as int] < #[trigger] values@[j],
{
    if values.len() == 0 {
        return None;
    }
    let mut best: usize = 0;
    let mut i: usize = 1;
    while i < values.len()
        invariant
            0 < values@.len(),
            1 <= i <= values@.len(),
            best < i,
            forall|j: int| 0 <= j < i ==> values@[best as int] <= #[trigger] values@[j],
            forall|j: int| 0 <= j < best ==> values@[best as int] < #[trigger] values@[j],
        decreases values@.len() - i,
    {
        if values[i] < values[best] {
            best = i;
        }
        i = i + 1;
    }
    Some(best)
}

/// Position of the last greatest value, `None` for no values: the slowest of a suite.
pub fn last_max_index(values: &[u128]) -> (r: Option<usize>)
    ensures
        r is None <==> values@.len() == 0,
        r matches Some(k) ==> k < values@.len() && is_upper_bound(values@, values@[k as int])
            && forall|j: int| k < j < values@.len() ==> #[trigger] values@[j] < values@[k as int],
{
    if values.len() == 0 {
        return None;
    }
    let mut best: usize = 0;
    let mut i: usize = 1;
    while i < values.len()
        invariant
            0 < values@.len(),
            1 <= i <= values@.len(),
            best < i,
            forall|j: int| 0 <= j < i ==> #[trigger] values@[j] <= values@[best as int],
            forall|j: int| best < j < i ==> #[trigger] values@[j] < values@[best as int],
        decreases values@.len() - i,
    {
        if values[i] >= values[best] {
            best = i;
        }
        i = i + 1;
    }
    Some(best)
}

} // verus!
