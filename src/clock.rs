use std::sync::atomic::{AtomicU32, Ordering};
use std::sync::Arc;
use vstd::arithmetic::div_mod::lemma_fundamental_div_mod_converse;
use vstd::prelude::*;

verus! {

/// Samples that make up one millisecond of interleaved audio: whole samples per
/// millisecond of one channel, times the channel count.
pub open spec fn samples_per_ms(sample_rate: u32, channels: u16) -> int {
    (sample_rate / 1000) as int * channels as int
}

/// The per-millisecond budget of a stream format fits the clock's signed counter.
pub open spec fn budget_fits(sample_rate: u32, channels: u16) -> bool {
    samples_per_ms(sample_rate, channels) <= i32::MAX
}

/// One sample drawn: the budget drops by one; at zero or below it is refilled
/// with `per_ms` and one millisecond is counted.
pub open spec fn clock_step(budget: int, per_ms: int) -> (int, bool) {
    if budget - 1 <= 0 {
        (per_ms, true)
    } else {
        (budget - 1, false)
    }
}

/// Budget and milliseconds counted after `n` samples drawn from a stream of
/// constant format, starting from `budget`.
pub open spec fn clock_run(budget: int, per_ms: int, n: nat) -> (int, nat)
    decreases n,
{
    if n == 0 {
        (budget, 0)
    } else {
        let (b, t) = clock_run(budget, per_ms, (n - 1) as nat);
        let (b2, tick) = clock_step(b, per_ms);
        (b2, t + if tick { 1nat } else { 0nat })
    }
}

/// Instruments an audio stream with a shared millisecond counter: each sample
/// that passes through spends one unit of a per-millisecond budget, and each
/// time the budget runs out the shared counter goes up by one.
pub struct CountingSource<I> {
    input: I,
    samples_till_next_ms: i32,
    ms_elapsed: Arc<AtomicU32>,
    ms_counted: Ghost<nat>,
}

impl<I> CountingSource<I> {
    /// Samples left before the next millisecond is counted.
    pub closed spec fn budget(&self) -> int {
        self.samples_till_next_ms as int
    }

    /// Milliseconds this instance has added to its shared counter: one for
    /// each `fetch_add` it has made. The counter is a std atomic, whose value
    /// verification cannot see, so the contracts speak of this count instead;
    /// with this instance as the counter's only writer, a reader that loads the
    /// counter sees at most this many, modulo 2^32 where the counter wraps.
    pub closed spec fn ticks(&self) -> nat {
        self.ms_counted@
    }

    /// The shared counter this instance advances.
    pub closed spec fn counter(&self) -> Arc<AtomicU32> {
        self.ms_elapsed
    }

    /// The wrapped stream.
    pub closed spec fn source(&self) -> I {
        self.input
    }

    /// Wraps `source`, whose format is `sample_rate` and `channels`, and returns
    /// the wrapper together with a handle to its counter, which starts at zero.
    pub fn new(source: I, sample_rate: u32, channels: u16) -> (r: (CountingSource<I>, Arc<AtomicU32>))
        requires
            budget_fits(sample_rate, channels),
        ensures
            r.0.budget() == samples_per_ms(sample_rate, channels),
            r.0.ticks() == 0,
            r.0.source() == source,
            r.0.counter() == r.1,
    {
        let arc = Arc::new(AtomicU32::new(0));
        let handle = arc.clone();
        let per_ms = Self::budget_for(sample_rate, channels);
        let counting_source = CountingSource {
            input: source,
            samples_till_next_ms: per_ms,
            ms_elapsed: arc,
            ms_counted: Ghost(0),
        };
        (counting_source, handle)
    }

    fn budget_for(sample_rate: u32, channels: u16) -> (r: i32)
        requires
            budget_fits(sample_rate, channels),
        ensures
            r == samples_per_ms(sample_rate, channels),
            r >= 0,
    {
        let per_channel: i64 = (sample_rate / 1000) as i64;
        assert(per_channel * channels <= 4294967295 * 65535) by (nonlinear_arith)
            requires
                0 <= per_channel <= 4294967295,
                0 <= channels <= 65535,
        ;
        assert(per_channel * channels >= 0) by (nonlinear_arith)
            requires
                0 <= per_channel,
                0 <= channels,
        ;
        let total: i64 = per_channel * (channels as i64);
        total as i32
    }

    /// Refills the budget from the stream's current format.
    pub fn reset_samples_till_next_ms(&mut self, sample_rate: u32, channels: u16)
        requires
            budget_fits(sample_rate, channels),
        ensures
            final(self).budget() == samples_per_ms(sample_rate, channels),
            final(self).ticks() == old(self).ticks(),
            final(self).source() == old(self).source(),
            final(self).counter() == old(self).counter(),
    {
        self.samples_till_next_ms = Self::budget_for(sample_rate, channels);
    }

    /// Passes on what one pull of the wrapped stream gave. A sample spends one
    /// unit of the budget, and when the budget runs out the shared counter goes
    /// up by one and the budget is refilled from the stream's current format.
    /// Exhaustion passes through and changes nothing.
    pub fn pass_sample<S>(&mut self, item: Option<S>, sample_rate: u32, channels: u16) -> (r: Option<S>)
        requires
            budget_fits(sample_rate, channels),
        ensures
            r == item,
            final(self).source() == old(self).source(),
            final(self).counter() == old(self).counter(),
            final(self).ticks() >= old(self).ticks(),
            item is None ==> final(self).budget() == old(self).budget() && final(self).ticks()
                == old(self).ticks(),
            item is Some ==> ({
                let (b, tick) = clock_step(old(self).budget(), samples_per_ms(sample_rate, channels));
                &&& final(self).budget() == b
                &&& final(self).ticks() == old(self).ticks() + if tick { 1nat } else { 0nat }
            }),
    {
        if item.is_some() {
            if self.samples_till_next_ms <= 1 {
                self.reset_samples_till_next_ms(sample_rate, channels);
                self.ms_elapsed.fetch_add(1, Ordering::Relaxed);
                self.ms_counted = Ghost(self.ms_counted@ + 1);
            } else {
                self.samples_till_next_ms = self.samples_till_next_ms - 1;
            }
        }
        item
    }

    /// The wrapped stream, to pull from.
    pub fn input_mut(&mut self) -> (r: &mut I)
        ensures
            *r == old(self).source(),
            final(self).source() == *final(r),
            final(self).counter() == old(self).counter(),
            final(self).budget() == old(self).budget(),
            final(self).ticks() == old(self).ticks(),
    {
        &mut self.input
    }

    /// The wrapped stream, to query its format.
    pub fn input(&self) -> (r: &I)
        ensures
            *r == self.source(),
    {
        &self.input
    }
}

/// The milliseconds counted never decrease as samples are drawn: after `n`
/// samples at least as many have been counted as after any `m <= n`.
pub proof fn lemma_clock_monotonic(budget: int, per_ms: int, m: nat, n: nat)
    requires
        m <= n,
    ensures
        clock_run(budget, per_ms, m).1 <= clock_run(budget, per_ms, n).1,
    decreases n - m,
{
    if m < n {
        lemma_clock_monotonic(budget, per_ms, m, (n - 1) as nat);
    }
}

/// From a full budget of `per_ms >= 1`, after `n` samples exactly `n / per_ms`
/// milliseconds have been counted, and `n % per_ms` units of the budget spent.
pub proof fn lemma_clock_run_from_full(per_ms: int, n: nat)
    requires
        per_ms >= 1,
    ensures
        clock_run(per_ms, per_ms, n) == (per_ms - n as int % per_ms, (n as int / per_ms) as nat),
    decreases n,
{
    if n == 0 {
        lemma_fundamental_div_mod_converse(0int, per_ms, 0int, 0int);
    } else {
        let k = (n - 1) as nat;
        lemma_clock_run_from_full(per_ms, k);
        let q: int = k as int / per_ms;
        let r: int = k as int % per_ms;
        assert(k == per_ms * q + r && 0 <= r < per_ms) by {
            vstd::arithmetic::div_mod::lemma_fundamental_div_mod(k as int, per_ms);
        }
        if r == per_ms - 1 {
            assert(n == per_ms * (q + 1) + 0) by (nonlinear_arith)
                requires
                    k == per_ms * q + r,
                    r == per_ms - 1,
                    n == k + 1,
            ;
            lemma_fundamental_div_mod_converse(n as int, per_ms, q + 1, 0);
        } else {
            assert(n == per_ms * q + (r + 1));
            lemma_fundamental_div_mod_converse(n as int, per_ms, q, r + 1);
        }
    }
}

/// One second of interleaved audio, `sample_rate * channels` samples drawn from
/// a fresh clock, counts `sample_rate / (sample_rate / 1000)` milliseconds: 1000
/// when the rate is a whole number of kilohertz, and never more than 1001 when
/// the rate's remainder below a kilohertz is under twice its whole kilohertz.
pub proof fn lemma_clock_one_second(sample_rate: u32, channels: u16)
    requires
        sample_rate >= 1000,
        channels >= 1,
        sample_rate % 1000 < 2 * (sample_rate / 1000),
    ensures
        ({
            let per_ms = samples_per_ms(sample_rate, channels);
            let ticks = clock_run(per_ms, per_ms, (sample_rate * channels) as nat).1;
            &&& ticks == sample_rate / (sample_rate / 1000)
            &&& 1000 <= ticks <= 1001
            &&& sample_rate % 1000 == 0 ==> ticks == 1000
        }),
{
    let rate = sample_rate as int;
    let c = channels as int;
    let k = rate / 1000;
    let rem = rate % 1000;
    vstd::arithmetic::div_mod::lemma_fundamental_div_mod(rate, 1000);
    assert(k >= 1);
    let per_ms = k * c;
    assert(per_ms >= 1) by (nonlinear_arith)
        requires
            k >= 1,
            c >= 1,
            per_ms == k * c,
    ;
    let n = rate * c;
    assert(n >= 0) by (nonlinear_arith)
        requires
            rate >= 0,
            c >= 0,
            n == rate * c,
    ;
    lemma_clock_run_from_full(per_ms, n as nat);
    let q = if rem < k { 1000int } else { 1001int };
    let r = if rem < k { rem } else { rem - k };
    assert(rate == k * q + r && 0 <= r < k) by (nonlinear_arith)
        requires
            rate == 1000 * k + rem,
            0 <= rem < 2 * k,
            q == if rem < k { 1000int } else { 1001int },
            r == if rem < k { rem } else { rem - k },
    ;
    lemma_fundamental_div_mod_converse(rate, k, q, r);
    assert(n == per_ms * q + r * c && 0 <= r * c < per_ms) by (nonlinear_arith)
        requires
            rate == k * q + r,
            0 <= r < k,
            c >= 1,
            n == rate * c,
            per_ms == k * c,
    ;
    lemma_fundamental_div_mod_converse(n, per_ms, q, r * c);
}

} // verus!
