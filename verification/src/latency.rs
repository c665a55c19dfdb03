//! Latency measurement.
//!
//! Only one part of the chain from key to game is directly measurable: the time
//! between the kernel's time stamp of an input event and the moment its touch is
//! dispatched. The report says plainly what it covers.

use std::collections::VecDeque;
use std::time::SystemTime;
use vstd::prelude::*;
use vstd::string::*;

verus! {

/// How many samples the live window keeps: about ten seconds of history, long
/// enough to be stable, short enough that a stall shows up and then clears.
pub const RECENT: usize = 2048;

/// `std::time::SystemTime`, a moment of the system clock. Nothing is known of
/// its inside.
#[verifier::external_type_specification]
#[verifier::external_body]
pub struct ExSystemTime(std::time::SystemTime);

/// `SystemTime::elapsed`: the microseconds from `event_time` until now, or
/// nothing if it lies in the future. The clock decides, so nothing is claimed of
/// the result.
#[verifier::external_body]
fn micros_since(event_time: SystemTime) -> (r: Option<u64>) {
    match event_time.elapsed() {
        Ok(d) => Some(d.as_micros() as u64),
        Err(_) => None,
    }
}

/// `<[u64]>::sort_unstable`: puts the numbers in ascending order, keeping each
/// as often as it occurs.
#[verifier::external_body]
fn sort_unstable(v: &mut Vec<u64>)
    ensures
        final(v)@.to_multiset() == old(v)@.to_multiset(),
        forall|i: int, j: int| 0 <= i < j < final(v)@.len() ==> final(v)@[i] <= final(v)@[j],
{
    v.sort_unstable();
}

/// The samples in ascending order.
pub open spec fn in_order(s: Seq<u64>) -> Seq<u64> {
    s.sort_by(|a: u64, b: u64| a <= b)
}

/// The position of the `p`th percentile among `n` ordered samples: the nearest
/// one, the later of two equally near ones.
pub open spec fn rank(n: nat, p: nat) -> int {
    ((n - 1) * p + 50) / 100
}

/// The `p`th percentile; zero without samples.
pub open spec fn percentile(s: Seq<u64>, p: nat) -> u64 {
    if s.len() == 0 {
        0
    } else {
        in_order(s)[rank(s.len(), p)]
    }
}

/// The largest sample; zero without samples.
pub open spec fn worst(s: Seq<u64>) -> u64 {
    if s.len() == 0 {
        0
    } else {
        in_order(s).last()
    }
}

/// The sum of the samples.
pub open spec fn total(s: Seq<u64>) -> nat
    decreases s.len(),
{
    if s.len() == 0 {
        0
    } else {
        total(s.drop_last()) + s.last() as nat
    }
}

/// The average, rounded down; zero without samples.
pub open spec fn mean(s: Seq<u64>) -> int {
    if s.len() == 0 {
        0
    } else {
        total(s) as int / s.len() as int
    }
}

/// The last `RECENT` samples.
pub open spec fn tail(s: Seq<u64>) -> Seq<u64> {
    if s.len() <= RECENT {
        s
    } else {
        s.subrange(s.len() - RECENT, s.len() as int)
    }
}

/// The figures of a report in milliseconds, as text.
#[derive(Debug)]
pub struct Shown {
    pub p50: String,
    pub p95: String,
    pub p99: String,
    pub worst: String,
    pub mean: String,
}

/// Latency samples of a run.
#[derive(Debug)]
pub struct LatencyStats {
    /// Every sample, in order of arrival.
    pub samples_us: Vec<u64>,
    /// Bounded tail of `samples_us`, for the live figure.
    pub recent: VecDeque<u64>,
    /// Events whose time stamp appears in the future rather than the past.
    /// Clock skew makes the measurement meaningless; these are counted instead
    /// of silently treated as zero.
    pub skipped: usize,
}

impl Default for LatencyStats {
    fn default() -> (r: LatencyStats)
        ensures
            r.wf(),
            r.samples() == Seq::<u64>::empty(),
            r.skipped_spec() == 0,
    {
        LatencyStats::new()
    }
}

/// Sorting gives the samples in order.
proof fn lemma_sorted(s: Seq<u64>, v: Seq<u64>)
    requires
        v.to_multiset() == s.to_multiset(),
        forall|i: int, j: int| 0 <= i < j < v.len() ==> v[i] <= v[j],
    ensures
        v == in_order(s),
        v.len() == s.len(),
{
    let leq = |a: u64, b: u64| a <= b;
    s.lemma_sort_by_ensures(leq);
    assert(vstd::relations::sorted_by(v, leq));
    vstd::seq_lib::lemma_sorted_unique(v, in_order(s), leq);
    s.to_multiset_ensures();
    v.to_multiset_ensures();
}

/// Ordered samples are as many as before, and ascend.
pub proof fn lemma_in_order(s: Seq<u64>)
    ensures
        in_order(s).len() == s.len(),
        in_order(s).to_multiset() == s.to_multiset(),
        forall|i: int, j: int|
            0 <= i < j < in_order(s).len() ==> #[trigger] in_order(s)[i] <= #[trigger] in_order(
                s,
            )[j],
{
    let leq = |a: u64, b: u64| a <= b;
    s.lemma_sort_by_ensures(leq);
    s.to_multiset_ensures();
    in_order(s).to_multiset_ensures();
    assert forall|i: int, j: int| 0 <= i < j < in_order(s).len() implies #[trigger] in_order(s)[i]
        <= #[trigger] in_order(s)[j] by {
        assert(leq(in_order(s)[i], in_order(s)[j]));
    }
}

/// A rank lies within the samples.
pub proof fn lemma_rank(n: nat, p: nat)
    requires
        n > 0,
        p <= 100,
    ensures
        0 <= rank(n, p) < n,
{
    assert(0 <= (n - 1) * p <= (n - 1) * 100) by (nonlinear_arith)
        requires
            n > 0,
            p <= 100,
    ;
}

impl LatencyStats {
    /// Every sample of the run, in order of arrival.
    pub open spec fn samples(&self) -> Seq<u64> {
        self.samples_us@
    }

    /// How many events were skipped.
    pub open spec fn skipped_spec(&self) -> usize {
        self.skipped
    }

    /// The live window holds the latest samples.
    pub open spec fn wf(&self) -> bool {
        self.recent@ == tail(self.samples_us@)
    }

    pub fn new() -> (r: LatencyStats)
        ensures
            r.wf(),
            r.samples() == Seq::<u64>::empty(),
            r.skipped_spec() == 0,
    {
        LatencyStats { samples_us: Vec::new(), recent: VecDeque::new(), skipped: 0 }
    }

    /// Records the time elapsed from the event time stamp until now: one more
    /// sample, or one more skipped event. The clock decides which.
    pub fn record(&mut self, event_time: SystemTime)
        requires
            old(self).wf(),
            old(self).skipped_spec() < usize::MAX,
        ensures
            final(self).wf(),
            (final(self).skipped_spec() == old(self).skipped_spec() && final(self).samples().len()
                == old(self).samples().len() + 1 && final(self).samples().drop_last()
                == old(self).samples()) || (final(self).skipped_spec() == old(self).skipped_spec() + 1
                && final(self).samples() == old(self).samples()),
    {
        let e: Option<u64> = micros_since(event_time);
        self.record_elapsed(e);
        assert(e is Some ==> self.samples().drop_last() =~= old(self).samples());
    }

    /// Records an elapsed time in microseconds, or an event from the future.
    pub fn record_elapsed(&mut self, elapsed: Option<u64>)
        requires
            old(self).wf(),
            old(self).skipped_spec() < usize::MAX,
        ensures
            final(self).wf(),
            match elapsed {
                Some(us) => final(self).samples() == old(self).samples().push(us)
                    && final(self).skipped_spec() == old(self).skipped_spec(),
                None => final(self).samples() == old(self).samples() && final(self).skipped_spec()
                    == old(self).skipped_spec() + 1,
            },
    {
        match elapsed {
            Some(us) => {
                self.push(us);
            },
            None => {
                self.skipped = self.skipped + 1;
            },
        }
    }

    /// Records a duration, given in microseconds.
    pub fn record_duration(&mut self, micros: u64)
        requires
            old(self).wf(),
        ensures
            final(self).wf(),
            final(self).samples() == old(self).samples().push(micros),
            final(self).skipped_spec() == old(self).skipped_spec(),
    {
        self.push(micros);
    }

    fn push(&mut self, us: u64)
        requires
            old(self).wf(),
        ensures
            final(self).wf(),
            final(self).samples() == old(self).samples().push(us),
            final(self).skipped_spec() == old(self).skipped_spec(),
    {
        self.samples_us.push(us);
        if self.recent.len() == RECENT {
            let _oldest = self.recent.pop_front();
        }
        self.recent.push_back(us);
        assert(self.recent@ =~= tail(self.samples_us@));
    }

    /// (p50, p99) over the live window, in microseconds.
    ///
    /// Separate from `percentiles` on purpose: mixing the two would let a single
    /// early stall sit in the status bar for the rest of the session.
    pub fn recent_percentiles(&self) -> (r: (u64, u64))
        requires
            self.wf(),
        ensures
            r == (
                percentile(tail(self.samples()), 50),
                percentile(tail(self.samples()), 99),
            ),
    {
        let n: usize = self.recent.len();
        if n == 0 {
            return (0, 0);
        }
        let mut v: Vec<u64> = Vec::new();
        let mut i: usize = 0;
        while i < n
            invariant
                n == self.recent@.len(),
                i <= n,
                v@ == self.recent@.take(i as int),
            decreases n - i,
        {
            v.push(self.recent[i]);
            assert(v@ =~= self.recent@.take(i + 1));
            i = i + 1;
        }
        assert(v@ =~= self.recent@);
        sort_unstable(&mut v);
        proof {
            lemma_sorted(self.recent@, v@);
        }
        (LatencyStats::pct(&v, 50), LatencyStats::pct(&v, 99))
    }

    pub fn recent_len(&self) -> (r: usize)
        requires
            self.wf(),
        ensures
            r == tail(self.samples()).len(),
            r <= RECENT,
    {
        self.recent.len()
    }

    pub fn len(&self) -> (r: usize)
        ensures
            r == self.samples().len(),
    {
        self.samples_us.len()
    }

    pub fn is_empty(&self) -> (r: bool)
        ensures
            r == (self.samples().len() == 0),
    {
        self.samples_us.len() == 0
    }

    fn pct(sorted: &Vec<u64>, p: u8) -> (r: u64)
        requires
            p <= 100,
        ensures
            sorted@.len() == 0 ==> r == 0,
            sorted@.len() > 0 ==> r == sorted@[rank(sorted@.len(), p as nat)],
    {
        if sorted.len() == 0 {
            return 0;
        }
        let n: u128 = sorted.len() as u128;
        proof {
            lemma_rank(sorted@.len(), p as nat);
            assert(0 <= (n - 1) * p <= (n - 1) * 100) by (nonlinear_arith)
                requires
                    n > 0,
                    p <= 100,
            ;
        }
        let i: usize = (((n - 1) * (p as u128) + 50) / 100) as usize;
        sorted[i]
    }

    /// The samples in ascending order.
    fn sorted(&self) -> (r: Vec<u64>)
        ensures
            r@ == in_order(self.samples()),
            r@.len() == self.samples().len(),
    {
        let mut v: Vec<u64> = Vec::new();
        let mut i: usize = 0;
        while i < self.samples_us.len()
            invariant
                i <= self.samples_us@.len(),
                v@ == self.samples_us@.take(i as int),
            decreases self.samples_us@.len() - i,
        {
            v.push(self.samples_us[i]);
            assert(v@ =~= self.samples_us@.take(i + 1));
            i = i + 1;
        }
        assert(v@ =~= self.samples_us@);
        sort_unstable(&mut v);
        proof {
            lemma_sorted(self.samples_us@, v@);
        }
        v
    }

    /// (p50, p95, p99, worst) in microseconds.
    pub fn percentiles(&self) -> (r: (u64, u64, u64, u64))
        ensures
            r == (
                percentile(self.samples(), 50),
                percentile(self.samples(), 95),
                percentile(self.samples(), 99),
                worst(self.samples()),
            ),
    {
        let s: Vec<u64> = self.sorted();
        let n: usize = s.len();
        let top: u64 = if n == 0 {
            0
        } else {
            s[n - 1]
        };
        (LatencyStats::pct(&s, 50), LatencyStats::pct(&s, 95), LatencyStats::pct(&s, 99), top)
    }

    pub fn mean_us(&self) -> (r: u64)
        ensures
            r == mean(self.samples()),
    {
        let n: usize = self.samples_us.len();
        if n == 0 {
            return 0;
        }
        let ghost s = self.samples_us@;
        let mut sum: u128 = 0;
        let mut i: usize = 0;
        while i < n
            invariant
                s == self.samples_us@,
                n == s.len(),
                i <= n,
                sum == total(s.take(i as int)),
                sum <= i * u64::MAX,
            decreases n - i,
        {
            assert(s.take(i + 1).drop_last() =~= s.take(i as int));
            assert(i * u64::MAX + u64::MAX == (i + 1) * u64::MAX) by (nonlinear_arith);
            assert((i + 1) * u64::MAX <= u64::MAX * u64::MAX) by (nonlinear_arith)
                requires
                    i < u64::MAX,
            ;
            sum = sum + (self.samples_us[i] as u128);
            i = i + 1;
        }
        assert(s.take(n as int) =~= s);
        let m: u128 = sum / (n as u128);
        assert(m <= u64::MAX) by (nonlinear_arith)
            requires
                sum <= n * u64::MAX,
                n > 0,
                m == sum / (n as u128),
        ;
        m as u64
    }

    /// The report. The figures in milliseconds come formatted; without samples
    /// they are not used.
    pub fn report(&self, label: &str, ms: &Shown) -> (r: String)
        ensures
            r@ == (if self.samples().len() == 0 {
                if self.skipped_spec() > 0 {
                    label@ + ": no usable samples                                 ("@
                        + crate::text::decimal(self.skipped_spec() as nat)
                        + " skipped due to clock skew)"@
                } else {
                    label@ + ": no samples"@
                }
            } else {
                let line = label@ + "  ("@ + crate::text::decimal(self.samples().len())
                    + " samples)\n  p50 "@ + ms.p50@ + " ms   p95 "@ + ms.p95@ + " ms   p99 "@
                    + ms.p99@ + " ms   worst "@ + ms.worst@ + " ms   mean "@ + ms.mean@ + " ms"@;
                if self.skipped_spec() > 0 {
                    line + "\n  warning: "@ + crate::text::decimal(self.skipped_spec() as nat)
                        + " samples skipped (clock skew)"@
                } else {
                    line
                }
            }),
    {
        let mut s: String = label.to_owned();
        if self.is_empty() {
            // If every sample was skipped, saying "no samples" would hide the
            // real reason.
            if self.skipped > 0 {
                s.append(": no usable samples                                 (");
                crate::text::push_decimal(&mut s, self.skipped as u64);
                s.append(" skipped due to clock skew)");
            } else {
                s.append(": no samples");
            }
            return s;
        }
        s.append("  (");
        crate::text::push_decimal(&mut s, self.len() as u64);
        s.append(" samples)\n  p50 ");
        s.append(ms.p50.as_str());
        s.append(" ms   p95 ");
        s.append(ms.p95.as_str());
        s.append(" ms   p99 ");
        s.append(ms.p99.as_str());
        s.append(" ms   worst ");
        s.append(ms.worst.as_str());
        s.append(" ms   mean ");
        s.append(ms.mean.as_str());
        s.append(" ms");
        if self.skipped > 0 {
            s.append("\n  warning: ");
            crate::text::push_decimal(&mut s, self.skipped as u64);
            s.append(" samples skipped (clock skew)");
        }
        s
    }
}

/// A higher percentile is never below a lower one, and none exceeds the worst.
pub proof fn law_percentiles_ascend(s: Seq<u64>, p: nat, q: nat)
    requires
        p <= q <= 100,
    ensures
        percentile(s, p) <= percentile(s, q) <= worst(s),
{
    if s.len() > 0 {
        lemma_in_order(s);
        lemma_rank(s.len(), p);
        lemma_rank(s.len(), q);
        assert((s.len() - 1) * p <= (s.len() - 1) * q) by (nonlinear_arith)
            requires
                s.len() > 0,
                p <= q,
        ;
    }
}

/// The live window forgets: once enough samples have arrived, nothing older
/// than they are counts, whatever came before.
pub proof fn law_the_window_forgets(before: Seq<u64>, since: Seq<u64>)
    requires
        since.len() >= RECENT,
    ensures
        tail(before + since) == tail(since),
{
    assert(tail(before + since) =~= tail(since));
}

/// Of a single sample every percentile is that sample.
pub proof fn law_one_sample_is_every_percentile(x: u64, p: nat)
    requires
        p <= 100,
    ensures
        percentile(seq![x], p) == x,
        worst(seq![x]) == x,
{
    let s = seq![x];
    lemma_in_order(s);
    lemma_rank(1, p);
    in_order(s).to_multiset_ensures();
    s.to_multiset_ensures();
    assert(in_order(s).contains(in_order(s)[0]));
    assert(s.to_multiset().count(in_order(s)[0]) > 0);
    assert(s.contains(in_order(s)[0]));
}

/// A percentile is one of the samples, and so is the worst, above which there is
/// none. Of no samples both are nothing.
pub proof fn law_a_percentile_is_a_sample(s: Seq<u64>, p: nat)
    requires
        p <= 100,
    ensures
        s.len() > 0 ==> s.contains(percentile(s, p)) && s.contains(worst(s)),
        forall|i: int| 0 <= i < s.len() ==> #[trigger] s[i] <= worst(s),
        s.len() == 0 ==> percentile(s, p) == 0 && worst(s) == 0 && mean(s) == 0,
{
    if s.len() > 0 {
        lemma_in_order(s);
        lemma_rank(s.len(), p);
        let o = in_order(s);
        o.to_multiset_ensures();
        s.to_multiset_ensures();
        assert(o.contains(o[rank(s.len(), p)]));
        assert(s.to_multiset().count(o[rank(s.len(), p)]) > 0);
        assert(o.contains(o.last()));
        assert(s.to_multiset().count(o.last()) > 0);
        assert forall|i: int| 0 <= i < s.len() implies #[trigger] s[i] <= worst(s) by {
            assert(s.contains(s[i]));
            assert(o.to_multiset().count(s[i]) > 0);
            assert(o.contains(s[i]));
            let k = choose|k: int| 0 <= k < o.len() && o[k] == s[i];
            assert(o[k] <= o.last());
        }
    }
}

/// The place of a percentile among the sorted samples is the nearest to its share
/// of the way from the first to the last.
pub proof fn law_a_percentile_has_the_nearest_place(n: nat, p: nat)
    requires
        n > 0,
        p <= 100,
    ensures
        0 <= rank(n, p) < n,
        -50 < 100 * rank(n, p) - (n - 1) * p <= 50,
        rank(n, 0) == 0,
        rank(n, 100) == n - 1,
{
    lemma_rank(n, p);
    let a = (n - 1) * p;
    assert(rank(n, p) == (a + 50) / 100);
    assert((n - 1) * 0 == 0) by (nonlinear_arith);
}

/// The mean is the sum over the number of samples, rounded down; the sum grows by
/// each sample.
pub proof fn law_the_mean_divides_the_sum(s: Seq<u64>, x: u64)
    ensures
        s.len() > 0 ==> mean(s) * s.len() <= total(s) < (mean(s) + 1) * s.len(),
        total(s.push(x)) == total(s) + x,
        total(Seq::<u64>::empty()) == 0,
{
    assert(s.push(x).drop_last() =~= s);
    if s.len() > 0 {
        let n = s.len() as int;
        let t = total(s) as int;
        vstd::arithmetic::div_mod::lemma_fundamental_div_mod(t, n);
        assert(n * (t / n) == (t / n) * n) by (nonlinear_arith);
        assert((t / n + 1) * n == (t / n) * n + n) by (nonlinear_arith);
    }
}

/// The live window holds the last two thousand and forty-eight samples, or all
/// where there are fewer, in order.
pub proof fn law_the_window_holds_the_last_samples(s: Seq<u64>)
    ensures
        tail(s).len() == if s.len() < 2048 {
            s.len()
        } else {
            2048
        },
        forall|i: int| 0 <= i < tail(s).len() ==> #[trigger] tail(s)[i] == s[s.len() - tail(s).len() + i],
{
}

} // verus!
