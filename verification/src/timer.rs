//! Frame- and tick-counting timers.

use vstd::prelude::*;

verus! {

/// Tick counter - fires every `interval` ticks.
#[derive(Debug, Clone, Copy)]
pub struct EveryNTicks {
    interval: u64,
    count: u64,
}

/// The counter after one more tick.
pub open spec fn next_count(interval: u64, count: u64) -> u64 {
    if count + 1 >= interval {
        0
    } else {
        (count + 1) as u64
    }
}

/// The counter after `n` ticks from a fresh or reset timer.
pub open spec fn count_after(interval: u64, n: nat) -> u64
    decreases n,
{
    if n == 0 {
        0
    } else {
        next_count(interval, count_after(interval, (n - 1) as nat))
    }
}

impl EveryNTicks {
    #[verifier::type_invariant]
    spec fn counter_below_interval(self) -> bool {
        self.count == 0 || self.count < self.interval
    }

    /// Number of ticks between firings.
    pub closed spec fn spec_interval(self) -> u64 {
        self.interval
    }

    /// Ticks since the last firing or reset.
    pub closed spec fn spec_count(self) -> u64 {
        self.count
    }

    /// Create a timer that fires every `interval` ticks.
    pub fn new(interval: u64) -> (t: Self)
        ensures
            t.spec_interval() == interval,
            t.spec_count() == 0,
    {
        Self { interval, count: 0 }
    }

    /// Tick once; returns whether the timer fires, which restarts the count.
    pub fn tick(&mut self) -> (fired: bool)
        ensures
            tick_step(*old(self), *final(self), fired),
            fired == (old(self).spec_count() + 1 >= old(self).spec_interval()),
            final(self).spec_count() == next_count(old(self).spec_interval(), old(self).spec_count()),
            final(self).spec_interval() == old(self).spec_interval(),
    {
        proof {
            use_type_invariant(&*self);
        }
        let next = self.count + 1;
        if next >= self.interval {
            self.count = 0;
            true
        } else {
            self.count = next;
            false
        }
    }

    /// Restart the count.
    pub fn reset(&mut self)
        ensures
            final(self).spec_count() == 0,
            final(self).spec_interval() == old(self).spec_interval(),
    {
        self.count = 0;
    }
}

/// One tick took the timer from `before` to `after` and returned `fired`.
pub open spec fn tick_step(before: EveryNTicks, after: EveryNTicks, fired: bool) -> bool {
    &&& fired == (before.spec_count() + 1 >= before.spec_interval())
    &&& after.spec_count() == next_count(before.spec_interval(), before.spec_count())
    &&& after.spec_interval() == before.spec_interval()
}

/// Over any run of ticks from a fresh or reset timer (`states[i]` before tick `i + 1`,
/// `fired[i]` what that tick returned), tick `k` fires exactly when `k` is a multiple of the
/// interval (every tick, for interval 0), and the count stays `k % interval`.
pub proof fn lemma_ticks_fire_every_interval(states: Seq<EveryNTicks>, fired: Seq<bool>)
    requires
        states.len() == fired.len() + 1,
        states[0].spec_count() == 0,
        forall|i: int| 0 <= i < fired.len() ==> tick_step(#[trigger] states[i], states[i + 1], fired[i]),
    ensures
        forall|i: int| 0 <= i < states.len() ==> (#[trigger] states[i]).spec_interval() == states[0].spec_interval(),
        forall|i: int|
            0 <= i < fired.len() ==> #[trigger] fired[i] == (states[0].spec_interval() == 0 || (i + 1) % (
            states[0].spec_interval() as int) == 0),
        states[0].spec_interval() >= 1 ==> forall|i: int|
            0 <= i < states.len() ==> (#[trigger] states[i]).spec_count() == i % (states[0].spec_interval() as int),
    decreases fired.len(),
{
    let n = states[0].spec_interval();
    if fired.len() > 0 {
        let m = fired.len() - 1;
        lemma_ticks_fire_every_interval(states.drop_last(), fired.drop_last());
        assert(tick_step(states[m], states[m + 1], fired[m]));
        assert(states[m] == states.drop_last()[m]);
        assert forall|i: int| 0 <= i < states.len() implies (#[trigger] states[i]).spec_interval() == n by {
            if i < states.len() - 1 {
                assert(states[i] == states.drop_last()[i]);
            }
        }
        assert forall|j: int| 0 <= j < states.len() - 1 implies #[trigger] states[j].spec_interval() == states[j + 1].spec_interval()
            && states[j + 1].spec_count() == next_count(states[j].spec_interval(), states[j].spec_count()) by {
            assert(tick_step(states[j], states[j + 1], fired[j]));
        }
        assert forall|i: int| 0 <= i < states.len() implies (#[trigger] states[i]).spec_count() == count_after(n, i as nat) by {
            lemma_count_is_count_after(states, i);
        }
        assert forall|i: int| 0 <= i < fired.len() implies #[trigger] fired[i] == (n == 0 || (i + 1) % (n as int) == 0) by {
            assert(tick_step(states[i], states[i + 1], fired[i]));
            if n >= 1 {
                lemma_every_n_ticks_period(n, (i + 1) as nat);
                assert(count_after(n, i as nat) == states[i].spec_count());
            }
        }
        if n >= 1 {
            assert forall|i: int| 0 <= i < states.len() implies (#[trigger] states[i]).spec_count() == i % (n as int) by {
                lemma_every_n_ticks_period(n, i as nat);
            }
        }
    } else {
        if n >= 1 {
            assert forall|i: int| 0 <= i < states.len() implies (#[trigger] states[i]).spec_count() == i % (n as int) by {
                assert(i == 0);
            }
        }
    }
}

/// Along a run of ticks from count 0, state `i` holds the count after `i` ticks.
proof fn lemma_count_is_count_after(states: Seq<EveryNTicks>, i: int)
    requires
        states.len() >= 1,
        0 <= i < states.len(),
        states[0].spec_count() == 0,
        forall|j: int| 0 <= j < states.len() - 1 ==> #[trigger] states[j].spec_interval() == states[j + 1].spec_interval()
            && states[j + 1].spec_count() == next_count(states[j].spec_interval(), states[j].spec_count()),
    ensures
        states[i].spec_interval() == states[0].spec_interval(),
        states[i].spec_count() == count_after(states[0].spec_interval(), i as nat),
    decreases i,
{
    if i > 0 {
        lemma_count_is_count_after(states, i - 1);
        assert(states[i - 1].spec_interval() == states[i].spec_interval());
    }
}

/// From a fresh or reset timer with `interval >= 1`, the count after `n` ticks is
/// `n % interval`, so the timer fires on exactly the ticks whose number is a multiple of
/// the interval.
pub proof fn lemma_every_n_ticks_period(interval: u64, n: nat)
    requires
        interval >= 1,
    ensures
        count_after(interval, n) == n % (interval as nat),
        n >= 1 ==> ((count_after(interval, (n - 1) as nat) + 1 >= interval) <==> n % (interval as nat) == 0),
    decreases n,
{
    if n == 0 {
        vstd::arithmetic::div_mod::lemma_fundamental_div_mod_converse(0, interval as int, 0, 0);
    } else {
        lemma_every_n_ticks_period(interval, (n - 1) as nat);
        let m = (n - 1) as int;
        let i = interval as int;
        let q = m / i;
        let r = m % i;
        vstd::arithmetic::div_mod::lemma_fundamental_div_mod(m, i);
        assert(0 <= r < i) by {
            vstd::arithmetic::div_mod::lemma_mod_bound(m, i);
        }
        if r + 1 >= i {
            assert(n == (q + 1) * i + 0) by (nonlinear_arith)
                requires
                    m == i * q + r,
                    r == i - 1,
                    n == m + 1,
            ;
            vstd::arithmetic::div_mod::lemma_fundamental_div_mod_converse(n as int, i, q + 1, 0);
            assert(count_after(interval, (n - 1) as nat) == r);
            assert(count_after(interval, n) == 0);
        } else {
            assert(n == q * i + (r + 1)) by (nonlinear_arith)
                requires
                    m == i * q + r,
                    n == m + 1,
            ;
            vstd::arithmetic::div_mod::lemma_fundamental_div_mod_converse(n as int, i, q, r + 1);
            assert(count_after(interval, (n - 1) as nat) == r);
            assert(count_after(interval, n) == r + 1);
        }
    }
}

/// A timer with interval 0 or 1 fires on every tick.
pub proof fn lemma_small_interval_always_fires(interval: u64, count: u64)
    requires
        interval <= 1,
    ensures
        count + 1 >= interval,
        next_count(interval, count) == 0,
{
}

/// Frame-based timer - fires every N frames.
#[derive(Debug, Clone, Copy)]
pub struct EveryNFrames {
    pub every_n: u64,
}

impl EveryNFrames {
    /// Create a timer that fires every `every_n` frames.
    pub fn new(every_n: u64) -> (t: Self)
        ensures
            t.every_n == every_n,
    {
        Self { every_n }
    }

    /// Whether the timer fires on frame number `frame_number`.
    pub fn should_tick(&self, frame_number: u64) -> (fires: bool)
        requires
            self.every_n != 0,
        ensures
            fires == (frame_number % self.every_n == 0),
    {
        frame_number % self.every_n == 0
    }
}

} // verus!
