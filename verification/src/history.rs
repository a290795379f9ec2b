//! Telemetry history: a bounded ring of samples per metric.

use crate::component::Telemetry;
use crate::single::Single;
use crate::text::same_text;
use crate::time::Timestamp;
use std::collections::VecDeque;
use vstd::prelude::*;

verus! {

#[derive(Clone, Copy, Debug, PartialEq, Eq, Structural, Hash)]
pub enum Metric {
    ActivePowerW,
    ReactivePowerVar,
    FrequencyHz,
    SocPct,
    DcPowerW,
    EnergyWh,
    ActivePowerLowerBoundW,
    ActivePowerUpperBoundW,
    ReactivePowerLowerBoundVar,
    ReactivePowerUpperBoundVar,
}

impl Metric {
    pub open spec fn name(self) -> Seq<char> {
        match self {
            Metric::ActivePowerW => "active_power_w"@,
            Metric::ReactivePowerVar => "reactive_power_var"@,
            Metric::FrequencyHz => "frequency_hz"@,
            Metric::SocPct => "soc_pct"@,
            Metric::DcPowerW => "dc_power_w"@,
            Metric::EnergyWh => "energy_wh"@,
            Metric::ActivePowerLowerBoundW => "active_power_lower_bound_w"@,
            Metric::ActivePowerUpperBoundW => "active_power_upper_bound_w"@,
            Metric::ReactivePowerLowerBoundVar => "reactive_power_lower_bound_var"@,
            Metric::ReactivePowerUpperBoundVar => "reactive_power_upper_bound_var"@,
        }
    }

    pub open spec fn is_active_power(self) -> bool {
        self is ActivePowerW || self is DcPowerW || self is ActivePowerLowerBoundW
            || self is ActivePowerUpperBoundW
    }

    pub open spec fn is_reactive_power(self) -> bool {
        self is ReactivePowerVar || self is ReactivePowerLowerBoundVar
            || self is ReactivePowerUpperBoundVar
    }

    /// The name that identifies the metric in files and requests.
    pub fn as_str(self) -> (r: &'static str)
        ensures
            r@ == self.name(),
    {
        match self {
            Metric::ActivePowerW => "active_power_w",
            Metric::ReactivePowerVar => "reactive_power_var",
            Metric::FrequencyHz => "frequency_hz",
            Metric::SocPct => "soc_pct",
            Metric::DcPowerW => "dc_power_w",
            Metric::EnergyWh => "energy_wh",
            Metric::ActivePowerLowerBoundW => "active_power_lower_bound_w",
            Metric::ActivePowerUpperBoundW => "active_power_upper_bound_w",
            Metric::ReactivePowerLowerBoundVar => "reactive_power_lower_bound_var",
            Metric::ReactivePowerUpperBoundVar => "reactive_power_upper_bound_var",
        }
    }

    /// The physical quantity that the metric measures.
    pub fn quantity(self) -> (r: &'static str)
        ensures
            self.is_active_power() ==> r@ == "Power"@,
            self.is_reactive_power() ==> r@ == "ReactivePower"@,
            self is FrequencyHz ==> r@ == "Frequency"@,
            self is SocPct ==> r@ == "Percentage"@,
            self is EnergyWh ==> r@ == "Energy"@,
    {
        match self {
            Metric::ActivePowerW
            | Metric::DcPowerW
            | Metric::ActivePowerLowerBoundW
            | Metric::ActivePowerUpperBoundW => "Power",
            Metric::ReactivePowerVar
            | Metric::ReactivePowerLowerBoundVar
            | Metric::ReactivePowerUpperBoundVar => "ReactivePower",
            Metric::FrequencyHz => "Frequency",
            Metric::SocPct => "Percentage",
            Metric::EnergyWh => "Energy",
        }
    }

    /// The unit of the metric's samples.
    pub fn unit(self) -> (r: &'static str)
        ensures
            self.is_active_power() ==> r@ == "W"@,
            self.is_reactive_power() ==> r@ == "var"@,
            self is FrequencyHz ==> r@ == "Hz"@,
            self is SocPct ==> r@ == "%"@,
            self is EnergyWh ==> r@ == "Wh"@,
    {
        match self {
            Metric::ActivePowerW
            | Metric::DcPowerW
            | Metric::ActivePowerLowerBoundW
            | Metric::ActivePowerUpperBoundW => "W",
            Metric::ReactivePowerVar
            | Metric::ReactivePowerLowerBoundVar
            | Metric::ReactivePowerUpperBoundVar => "var",
            Metric::FrequencyHz => "Hz",
            Metric::SocPct => "%",
            Metric::EnergyWh => "Wh",
        }
    }

    /// The metric with a name; `None` for a text that names none.
    pub fn parse(s: &str) -> (r: Option<Metric>)
        ensures
            r matches Some(m) ==> m.name() == s@,
            r is None ==> forall|m: Metric| m.name() != s@,
    {
        if same_text(s, "active_power_w") {
            Some(Metric::ActivePowerW)
        } else if same_text(s, "reactive_power_var") {
            Some(Metric::ReactivePowerVar)
        } else if same_text(s, "frequency_hz") {
            Some(Metric::FrequencyHz)
        } else if same_text(s, "soc_pct") {
            Some(Metric::SocPct)
        } else if same_text(s, "dc_power_w") {
            Some(Metric::DcPowerW)
        } else if same_text(s, "energy_wh") {
            Some(Metric::EnergyWh)
        } else if same_text(s, "active_power_lower_bound_w") {
            Some(Metric::ActivePowerLowerBoundW)
        } else if same_text(s, "active_power_upper_bound_w") {
            Some(Metric::ActivePowerUpperBoundW)
        } else if same_text(s, "reactive_power_lower_bound_var") {
            Some(Metric::ReactivePowerLowerBoundVar)
        } else if same_text(s, "reactive_power_upper_bound_var") {
            Some(Metric::ReactivePowerUpperBoundVar)
        } else {
            None
        }
    }
}

/// Different metrics have different names, so a name read back is the metric
/// that it was written for.
pub proof fn law_metric_names_differ(a: Metric, b: Metric)
    requires
        a.name() == b.name(),
    ensures
        a == b,
{
    reveal_strlit("active_power_w");
    reveal_strlit("reactive_power_var");
    reveal_strlit("frequency_hz");
    reveal_strlit("soc_pct");
    reveal_strlit("dc_power_w");
    reveal_strlit("energy_wh");
    reveal_strlit("active_power_lower_bound_w");
    reveal_strlit("active_power_upper_bound_w");
    reveal_strlit("reactive_power_lower_bound_var");
    reveal_strlit("reactive_power_upper_bound_var");
    assert("active_power_w"@.len() == 14);
    assert("reactive_power_var"@.len() == 18);
    assert("frequency_hz"@.len() == 12);
    assert("soc_pct"@.len() == 7);
    assert("dc_power_w"@.len() == 10);
    assert("energy_wh"@.len() == 9);
    assert("active_power_lower_bound_w"@.len() == 26);
    assert("active_power_upper_bound_w"@.len() == 26);
    assert("reactive_power_lower_bound_var"@.len() == 30);
    assert("reactive_power_upper_bound_var"@.len() == 30);
    assert("active_power_lower_bound_w"@[13] == 'l');
    assert("active_power_upper_bound_w"@[13] == 'u');
    assert("reactive_power_lower_bound_var"@[15] == 'l');
    assert("reactive_power_upper_bound_var"@[15] == 'u');
}

/// One sample of a metric.
#[derive(Clone, Copy, Debug)]
pub struct Sample {
    pub ts: Timestamp,
    pub value: Single,
}

/// The newest samples, oldest first.
#[derive(Debug)]
pub struct History {
    pub capacity: usize,
    pub ring: VecDeque<Sample>,
}

/// The ring after a sample was appended: a full ring loses its oldest one.
pub open spec fn ring_pushed(ring: Seq<Sample>, capacity: nat, s: Sample) -> Seq<Sample> {
    if ring.len() >= capacity && ring.len() > 0 {
        ring.skip(1).push(s)
    } else {
        ring.push(s)
    }
}

/// The samples are in the order of time.
pub open spec fn in_time_order(ring: Seq<Sample>) -> bool {
    forall|i: int, j: int|
        #![trigger ring[i], ring[j]]
        0 <= i <= j < ring.len() ==> ring[i].ts.total() <= ring[j].ts.total()
}

impl History {
    /// At most `capacity` samples, one if that is zero.
    pub open spec fn wf(self) -> bool {
        &&& self.ring@.len() <= (if self.capacity == 0 { 1nat } else { self.capacity as nat })
        &&& forall|i: int| 0 <= i < self.ring@.len() ==> (#[trigger] self.ring@[i]).ts.wf()
    }

    pub fn new(capacity: usize) -> (r: Self)
        ensures
            r.wf(),
            r.capacity == capacity,
            r.ring@.len() == 0,
    {
        History { capacity, ring: VecDeque::new() }
    }

    pub fn push(&mut self, ts: Timestamp, value: Single)
        requires
            old(self).wf(),
            ts.wf(),
        ensures
            final(self).wf(),
            final(self).capacity == old(self).capacity,
            final(self).ring@ == ring_pushed(
                old(self).ring@,
                old(self).capacity as nat,
                Sample { ts, value },
            ),
    {
        if self.ring.len() >= self.capacity {
            let oldest = self.ring.pop_front();
            assert(oldest is Some ==> self.ring@ == old(self).ring@.skip(1));
        }
        self.ring.push_back(Sample { ts, value });
    }

    pub fn len(&self) -> (r: usize)
        ensures
            r == self.ring@.len(),
    {
        self.ring.len()
    }

    pub fn is_empty(&self) -> (r: bool)
        ensures
            r == (self.ring@.len() == 0),
    {
        self.ring.len() == 0
    }

    /// The samples at or after `since`. Samples are pushed in the order of
    /// time, so they are a tail of the ring, found by bisection. Where they
    /// were not, the tail begins behind some sample before `since` and with
    /// one at or after it.
    pub fn iter_window(&self, since: Timestamp) -> (r: Vec<Sample>)
        requires
            self.wf(),
            since.wf(),
        ensures
            exists|cut: int|
                {
                    &&& 0 <= cut <= self.ring@.len()
                    &&& r@ == #[trigger] self.ring@.skip(cut)
                    &&& cut > 0 ==> self.ring@[cut - 1].ts.total() < since.total()
                    &&& cut < self.ring@.len() ==> self.ring@[cut].ts.total() >= since.total()
                    &&& in_time_order(self.ring@) ==> forall|i: int|
                        0 <= i < self.ring@.len() ==> ((#[trigger] self.ring@[i]).ts.total()
                            < since.total() <==> i < cut)
                },
    {
        let mut lo: usize = 0;
        let mut hi: usize = self.ring.len();
        while lo < hi
            invariant
                lo <= hi <= self.ring@.len(),
                self.wf(),
                since.wf(),
                lo > 0 ==> self.ring@[lo - 1].ts.total() < since.total(),
                hi < self.ring@.len() ==> self.ring@[hi as int].ts.total() >= since.total(),
                in_time_order(self.ring@) ==> forall|i: int|
                    0 <= i < lo ==> (#[trigger] self.ring@[i]).ts.total() < since.total(),
                in_time_order(self.ring@) ==> forall|i: int|
                    hi <= i < self.ring@.len() ==> (#[trigger] self.ring@[i]).ts.total()
                        >= since.total(),
            decreases hi - lo,
        {
            let mid: usize = lo + (hi - lo) / 2;
            if self.ring[mid].ts.before(since) {
                lo = mid + 1;
            } else {
                hi = mid;
            }
        }
        self.tail(lo)
    }

    /// The samples from a place on.
    fn tail(&self, from: usize) -> (r: Vec<Sample>)
        requires
            from <= self.ring@.len(),
        ensures
            r@ == self.ring@.skip(from as int),
    {
        let mut out: Vec<Sample> = Vec::new();
        let mut i: usize = from;
        while i < self.ring.len()
            invariant
                from <= i <= self.ring@.len(),
                out@ == self.ring@.subrange(from as int, i as int),
            decreases self.ring@.len() - i,
        {
            out.push(self.ring[i]);
            i += 1;
            assert(out@ =~= self.ring@.subrange(from as int, i as int));
        }
        assert(out@ =~= self.ring@.skip(from as int));
        out
    }

    /// All samples, oldest first.
    pub fn iter(&self) -> (r: Vec<Sample>)
        ensures
            r@ == self.ring@,
    {
        assert(self.ring@.skip(0) =~= self.ring@);
        self.tail(0)
    }
}

/// The newest samples stay: after a push the last sample is the new one, and
/// the others are the newest of those before, in their order.
pub proof fn law_ring_keeps_the_newest(ring: Seq<Sample>, capacity: nat, s: Sample)
    ensures
        ring_pushed(ring, capacity, s).last() == s,
        exists|cut: int|
            0 <= cut <= 1 && cut <= ring.len() && ring_pushed(ring, capacity, s).drop_last()
                == #[trigger] ring.skip(cut),
        ring.len() < capacity ==> ring_pushed(ring, capacity, s).drop_last() == ring,
{
    let r = ring_pushed(ring, capacity, s);
    if ring.len() >= capacity && ring.len() > 0 {
        assert(r.drop_last() == ring.skip(1));
    } else {
        assert(r.drop_last() == ring);
        assert(ring == ring.skip(0));
    }
}

/// A ring that is filled in the order of time stays in that order.
pub proof fn law_ring_stays_in_time_order(ring: Seq<Sample>, capacity: nat, s: Sample)
    requires
        in_time_order(ring),
        forall|i: int|
            0 <= i < ring.len() ==> (#[trigger] ring[i]).ts.total() <= s.ts.total(),
    ensures
        in_time_order(ring_pushed(ring, capacity, s)),
{
    let r = ring_pushed(ring, capacity, s);
    let off: int = if ring.len() >= capacity && ring.len() > 0 {
        1
    } else {
        0
    };
    assert forall|i: int, j: int|
        #![trigger r[i], r[j]]
        0 <= i <= j < r.len() implies r[i].ts.total() <= r[j].ts.total() by {
        if i < r.len() - 1 {
            assert(r[i] == ring[i + off]);
        }
        if j < r.len() - 1 {
            assert(r[j] == ring[j + off]);
        }
    }
}

/// One metric's ring.
#[derive(Debug)]
pub struct Series {
    pub metric: Metric,
    pub history: History,
}

/// The rings of a component, one per metric that it has published.
#[derive(Debug)]
pub struct ComponentHistory {
    pub capacity: usize,
    pub series: Vec<Series>,
}

/// The index of a metric's ring, or the number of rings.
pub open spec fn series_index(s: Seq<Series>, m: Metric) -> int
    decreases s.len(),
{
    if s.len() == 0 || s[0].metric == m {
        0
    } else {
        1 + series_index(s.skip(1), m)
    }
}

/// What a snapshot adds to the rings, in order. Of a list of bands the first
/// band's edges count.
pub open spec fn snapshot_samples(t: Telemetry) -> Seq<(Metric, Single)> {
    let active = match t.active_power_bounds {
        Some(b) => if b@.len() > 0 {
            (b@[0].lower, b@[0].upper)
        } else {
            (None, None)
        },
        None => (None, None),
    };
    let reactive = match t.reactive_power_bounds {
        Some(b) => if b@.len() > 0 {
            (b@[0].lower, b@[0].upper)
        } else {
            (None, None)
        },
        None => (None, None),
    };
    published(Metric::ActivePowerW, t.active_power_w) + published(
        Metric::ReactivePowerVar,
        t.reactive_power_var,
    ) + published(Metric::FrequencyHz, t.frequency_hz) + published(Metric::SocPct, t.soc_pct)
        + published(Metric::DcPowerW, t.dc_power_w) + published(
        Metric::ActivePowerLowerBoundW,
        active.0,
    ) + published(Metric::ActivePowerUpperBoundW, active.1) + published(
        Metric::ReactivePowerLowerBoundVar,
        reactive.0,
    ) + published(Metric::ReactivePowerUpperBoundVar, reactive.1)
}

pub open spec fn published(m: Metric, v: Option<Single>) -> Seq<(Metric, Single)> {
    match v {
        Some(x) => seq![(m, x)],
        None => Seq::empty(),
    }
}

/// The samples of one metric among a row of samples, as ring entries.
pub open spec fn samples_of(
    samples: Seq<(Metric, Single)>,
    m: Metric,
    ts: Timestamp,
) -> Seq<Sample>
    decreases samples.len(),
{
    if samples.len() == 0 {
        Seq::empty()
    } else {
        let before = samples_of(samples.drop_last(), m, ts);
        if samples.last().0 == m {
            before.push(Sample { ts, value: samples.last().1 })
        } else {
            before
        }
    }
}

/// A ring after several samples.
pub open spec fn ring_extended(
    ring: Seq<Sample>,
    capacity: nat,
    samples: Seq<Sample>,
) -> Seq<Sample>
    decreases samples.len(),
{
    if samples.len() == 0 {
        ring
    } else {
        ring_pushed(ring_extended(ring, capacity, samples.drop_last()), capacity, samples.last())
    }
}

proof fn lemma_series_index(s: Seq<Series>, m: Metric)
    ensures
        0 <= series_index(s, m) <= s.len(),
        series_index(s, m) < s.len() ==> s[series_index(s, m)].metric == m,
        forall|i: int| 0 <= i < series_index(s, m) ==> (#[trigger] s[i]).metric != m,
    decreases s.len(),
{
    if s.len() > 0 && s[0].metric != m {
        let t = s.skip(1);
        lemma_series_index(t, m);
        assert forall|i: int| 0 <= i < series_index(s, m) implies (#[trigger] s[i]).metric != m by {
            if i > 0 {
                assert(t[i - 1] == s[i]);
            }
        }
    }
}

impl ComponentHistory {
    pub open spec fn wf(self) -> bool {
        &&& forall|i: int|
            0 <= i < self.series@.len() ==> (#[trigger] self.series@[i]).history.wf()
                && self.series@[i].history.capacity == self.capacity
        &&& forall|i: int, j: int|
            #![trigger self.series@[i], self.series@[j]]
            0 <= i < j < self.series@.len() ==> self.series@[i].metric != self.series@[j].metric
    }

    /// The samples of a metric; none for one that was never published. Whether
    /// it has a ring at all, [`Self::has`] says.
    pub open spec fn ring(self, m: Metric) -> Seq<Sample> {
        let i = series_index(self.series@, m);
        if i < self.series@.len() {
            self.series@[i].history.ring@
        } else {
            Seq::empty()
        }
    }

    /// There is a ring for the metric.
    pub open spec fn has(self, m: Metric) -> bool {
        series_index(self.series@, m) < self.series@.len()
    }

    pub fn new(capacity: usize) -> (r: Self)
        ensures
            r.wf(),
            r.capacity == capacity,
            forall|m: Metric| !r.has(m),
            r.series@.len() == 0,
    {
        ComponentHistory { capacity, series: Vec::new() }
    }

    fn find(&self, m: Metric) -> (r: usize)
        ensures
            r == series_index(self.series@, m),
            r <= self.series@.len(),
    {
        let mut i: usize = 0;
        assert(self.series@.skip(0) == self.series@);
        while i < self.series.len()
            invariant
                i <= self.series@.len(),
                series_index(self.series@, m) == i + series_index(
                    self.series@.skip(i as int),
                    m,
                ),
            decreases self.series@.len() - i,
        {
            assert(self.series@.skip(i as int)[0] == self.series@[i as int]);
            if self.series[i].metric == m {
                return i;
            }
            assert(self.series@.skip(i as int).skip(1) == self.series@.skip(i + 1));
            i = i + 1;
        }
        assert(self.series@.skip(i as int).len() == 0);
        i
    }

    fn push(&mut self, ts: Timestamp, metric: Metric, value: Single)
        requires
            old(self).wf(),
            ts.wf(),
        ensures
            final(self).wf(),
            final(self).capacity == old(self).capacity,
            final(self).has(metric),
            final(self).ring(metric) == ring_pushed(
                old(self).ring(metric),
                old(self).capacity as nat,
                Sample { ts, value },
            ),
            forall|m: Metric|
                m != metric ==> final(self).ring(m) == old(self).ring(m) && final(self).has(m)
                    == old(self).has(m),
    {
        let i = self.find(metric);
        let ghost before = self.series@;
        proof {
            lemma_series_index(before, metric);
        }
        if i < self.series.len() {
            let mut entry = self.series.remove(i);
            entry.history.push(ts, value);
            self.series.insert(i, entry);
            proof {
                let after = self.series@;
                assert(after.len() == before.len());
                assert forall|k: int| 0 <= k < after.len() && k != i implies after[k]
                    == before[k] by {}
                assert(after[i as int].metric == metric);
                assert forall|m: Metric| series_index(after, m) == series_index(before, m) by {
                    lemma_same_metrics(before, after, m);
                }
                assert forall|m: Metric| m != metric implies self.ring(m) == old(self).ring(m) by {
                    lemma_series_index(after, m);
                }
            }
        } else {
            let mut history = History::new(self.capacity);
            history.push(ts, value);
            self.series.push(Series { metric, history });
            proof {
                let after = self.series@;
                assert forall|m: Metric| m != metric implies self.ring(m) == old(self).ring(m)
                    && self.has(m) == old(self).has(m) by {
                    lemma_pushed_index(before, after.last(), m);
                    lemma_series_index(before, m);
                }
                lemma_pushed_index(before, after.last(), metric);
                assert(after[i as int].history.ring@ == ring_pushed(
                    Seq::empty(),
                    old(self).capacity as nat,
                    Sample { ts, value },
                ));
                assert forall|a: int, b: int|
                    #![trigger after[a], after[b]]
                    0 <= a < b < after.len() implies after[a].metric != after[b].metric by {
                    assert(after[a] == before[a]);
                    if b < before.len() {
                        assert(after[b] == before[b]);
                    }
                }
            }
        }
    }

    /// Appends what the snapshot publishes and returns it, in order.
    pub fn push_snapshot(&mut self, ts: Timestamp, snapshot: &Telemetry) -> (r: Vec<
        (Metric, Single),
    >)
        requires
            old(self).wf(),
            ts.wf(),
        ensures
            final(self).wf(),
            final(self).capacity == old(self).capacity,
            r@ == snapshot_samples(*snapshot),
            forall|m: Metric|
                final(self).ring(m) == ring_extended(
                    old(self).ring(m),
                    old(self).capacity as nat,
                    #[trigger] samples_of(r@, m, ts),
                ),
            forall|m: Metric| #[trigger]
                final(self).has(m) <==> old(self).has(m) || samples_of(r@, m, ts).len() > 0,
    {
        let mut pushed: Vec<(Metric, Single)> = Vec::new();
        let ghost start = *self;
        self.publish(ts, Metric::ActivePowerW, snapshot.active_power_w, &mut pushed, Ghost(start));
        self.publish(
            ts,
            Metric::ReactivePowerVar,
            snapshot.reactive_power_var,
            &mut pushed,
            Ghost(start),
        );
        self.publish(ts, Metric::FrequencyHz, snapshot.frequency_hz, &mut pushed, Ghost(start));
        self.publish(ts, Metric::SocPct, snapshot.soc_pct, &mut pushed, Ghost(start));
        self.publish(ts, Metric::DcPowerW, snapshot.dc_power_w, &mut pushed, Ghost(start));
        let (lower, upper) = match &snapshot.active_power_bounds {
            Some(b) => if b.0.len() > 0 {
                (b.0[0].lower, b.0[0].upper)
            } else {
                (None, None)
            },
            None => (None, None),
        };
        self.publish(ts, Metric::ActivePowerLowerBoundW, lower, &mut pushed, Ghost(start));
        self.publish(ts, Metric::ActivePowerUpperBoundW, upper, &mut pushed, Ghost(start));
        let (lower, upper) = match &snapshot.reactive_power_bounds {
            Some(b) => if b.0.len() > 0 {
                (b.0[0].lower, b.0[0].upper)
            } else {
                (None, None)
            },
            None => (None, None),
        };
        self.publish(ts, Metric::ReactivePowerLowerBoundVar, lower, &mut pushed, Ghost(start));
        self.publish(ts, Metric::ReactivePowerUpperBoundVar, upper, &mut pushed, Ghost(start));
        assert(pushed@ == snapshot_samples(*snapshot));
        assert forall|m: Metric| #[trigger]
            self.has(m) <==> start.has(m) || samples_of(pushed@, m, ts).len() > 0 by {
            let samples = samples_of(pushed@, m, ts);
            assert(self.ring(m) == ring_extended(start.ring(m), start.capacity as nat, samples));
        }
        pushed
    }

    fn publish(
        &mut self,
        ts: Timestamp,
        metric: Metric,
        value: Option<Single>,
        pushed: &mut Vec<(Metric, Single)>,
        Ghost(start): Ghost<ComponentHistory>,
    )
        requires
            old(self).wf(),
            old(self).capacity == start.capacity,
            ts.wf(),
            old(pushed)@.len() == 0 ==> *old(self) == start,
            old(pushed)@.len() > 0 ==> forall|m: Metric|
                old(self).ring(m) == ring_extended(
                    start.ring(m),
                    start.capacity as nat,
                    #[trigger] samples_of(old(pushed)@, m, ts),
                ) && (old(self).has(m) <==> start.has(m) || samples_of(
                    old(pushed)@,
                    m,
                    ts,
                ).len() > 0),
        ensures
            final(self).wf(),
            final(self).capacity == start.capacity,
            final(pushed)@ == old(pushed)@ + published(metric, value),
            final(pushed)@.len() == 0 ==> *final(self) == start,
            forall|m: Metric|
                final(self).ring(m) == ring_extended(
                    start.ring(m),
                    start.capacity as nat,
                    #[trigger] samples_of(final(pushed)@, m, ts),
                ) && (final(self).has(m) <==> start.has(m) || samples_of(
                    final(pushed)@,
                    m,
                    ts,
                ).len() > 0),
    {
        let ghost before = pushed@;
        assert forall|m: Metric| self.ring(m) == ring_extended(
            start.ring(m),
            start.capacity as nat,
            #[trigger] samples_of(before, m, ts),
        ) && (self.has(m) <==> start.has(m) || samples_of(before, m, ts).len() > 0) by {
            if before.len() == 0 {
                assert(samples_of(before, m, ts).len() == 0);
            }
        }
        if let Some(v) = value {
            let ghost earlier = *self;
            self.push(ts, metric, v);
            pushed.push((metric, v));
            proof {
                let now = pushed@;
                assert(now == before + published(metric, value));
                assert(now.drop_last() == before);
                assert forall|m: Metric| self.ring(m) == ring_extended(
                    start.ring(m),
                    start.capacity as nat,
                    #[trigger] samples_of(now, m, ts),
                ) && (self.has(m) <==> start.has(m) || samples_of(now, m, ts).len() > 0) by {
                    let old_samples = samples_of(before, m, ts);
                    if m == metric {
                        let s = Sample { ts, value: v };
                        assert(samples_of(now, m, ts) == old_samples.push(s));
                        assert(old_samples.push(s).drop_last() == old_samples);
                    }
                }
            }
        } else {
            assert(pushed@ == before + published(metric, value));
        }
    }

    /// Appends one sample of a metric.
    pub fn record(&mut self, ts: Timestamp, metric: Metric, value: Single)
        requires
            old(self).wf(),
            ts.wf(),
        ensures
            final(self).wf(),
            final(self).capacity == old(self).capacity,
            final(self).has(metric),
            final(self).ring(metric) == ring_pushed(
                old(self).ring(metric),
                old(self).capacity as nat,
                Sample { ts, value },
            ),
            forall|m: Metric|
                m != metric ==> final(self).ring(m) == old(self).ring(m) && final(self).has(m)
                    == old(self).has(m),
    {
        self.push(ts, metric, value);
    }

    /// The ring of a metric, if it was ever published.
    pub fn get(&self, metric: Metric) -> (r: Option<&History>)
        ensures
            r is Some <==> self.has(metric),
            r matches Some(h) ==> h.ring@ == self.ring(metric),
            self.wf() && r is Some ==> (r->0).wf() && (r->0).capacity == self.capacity,
    {
        let i = self.find(metric);
        if i < self.series.len() {
            Some(&self.series[i].history)
        } else {
            None
        }
    }

    /// The metrics that have a ring.
    pub fn metrics(&self) -> (r: Vec<Metric>)
        requires
            self.wf(),
        ensures
            forall|m: Metric| r@.contains(m) <==> self.has(m),
            r@.no_duplicates(),
    {
        let mut out: Vec<Metric> = Vec::new();
        let mut i: usize = 0;
        while i < self.series.len()
            invariant
                i <= self.series@.len(),
                out@.len() == i,
                forall|k: int| 0 <= k < i ==> out@[k] == (#[trigger] self.series@[k]).metric,
            decreases self.series@.len() - i,
        {
            out.push(self.series[i].metric);
            i = i + 1;
        }
        proof {
            assert forall|m: Metric| out@.contains(m) <==> self.has(m) by {
                lemma_series_index(self.series@, m);
                if out@.contains(m) {
                    let k = choose|k: int| 0 <= k < out@.len() && out@[k] == m;
                    assert(self.series@[k].metric == m);
                }
                if self.has(m) {
                    let k = series_index(self.series@, m);
                    assert(out@[k] == self.series@[k].metric);
                }
            }
            assert forall|a: int, b: int| 0 <= a < out@.len() && 0 <= b < out@.len() && a
                != b implies out@[a] != out@[b] by {
                assert(self.series@[a].metric != self.series@[b].metric);
            }
        }
        out
    }
}

proof fn lemma_samples_joined(
    a: Seq<(Metric, Single)>,
    b: Seq<(Metric, Single)>,
    m: Metric,
    ts: Timestamp,
)
    ensures
        samples_of(a + b, m, ts) == samples_of(a, m, ts) + samples_of(b, m, ts),
    decreases b.len(),
{
    if b.len() == 0 {
        assert(a + b =~= a);
        assert(samples_of(a, m, ts) + samples_of(b, m, ts) =~= samples_of(a, m, ts));
    } else {
        let rest = b.drop_last();
        lemma_samples_joined(a, rest, m, ts);
        assert((a + b).drop_last() =~= a + rest);
        assert((a + b).last() == b.last());
        assert(samples_of(a + b, m, ts) =~= samples_of(a, m, ts) + samples_of(b, m, ts));
    }
}

/// The samples of a quantity that a snapshot holds once or not at all.
pub open spec fn at_most_one(v: Option<Single>, ts: Timestamp) -> Seq<Sample> {
    match v {
        Some(value) => seq![Sample { ts, value }],
        None => Seq::empty(),
    }
}

proof fn lemma_published(m: Metric, v: Option<Single>, of: Metric, ts: Timestamp)
    ensures
        samples_of(published(m, v), of, ts) == if of == m {
            at_most_one(v, ts)
        } else {
            Seq::empty()
        },
{
    reveal_with_fuel(samples_of, 3);
    if let Some(x) = v {
        let one = published(m, v);
        assert(one.drop_last() =~= Seq::empty());
        assert(one.last() == (m, x));
        assert(samples_of(one, of, ts) =~= if of == m {
            at_most_one(v, ts)
        } else {
            Seq::empty()
        });
    }
}

/// A snapshot's ring entries are its own quantities: each metric's ring gets
/// the value that the snapshot holds for it, stamped with the snapshot's time,
/// and nothing else. The bounds' rings get the edges of the first band.
pub proof fn law_snapshot_fills_each_ring_with_its_quantity(t: Telemetry, ts: Timestamp)
    ensures
        ({
            let row = snapshot_samples(t);
            let active = match t.active_power_bounds {
                Some(b) => if b@.len() > 0 {
                    Some(b@[0])
                } else {
                    None
                },
                None => None,
            };
            let reactive = match t.reactive_power_bounds {
                Some(b) => if b@.len() > 0 {
                    Some(b@[0])
                } else {
                    None
                },
                None => None,
            };
            &&& samples_of(row, Metric::ActivePowerW, ts) == at_most_one(t.active_power_w, ts)
            &&& samples_of(row, Metric::ReactivePowerVar, ts) == at_most_one(
                t.reactive_power_var,
                ts,
            )
            &&& samples_of(row, Metric::FrequencyHz, ts) == at_most_one(t.frequency_hz, ts)
            &&& samples_of(row, Metric::SocPct, ts) == at_most_one(t.soc_pct, ts)
            &&& samples_of(row, Metric::DcPowerW, ts) == at_most_one(t.dc_power_w, ts)
            &&& samples_of(row, Metric::EnergyWh, ts).len() == 0
            &&& samples_of(row, Metric::ActivePowerLowerBoundW, ts) == match active {
                Some(b) => at_most_one(b.lower, ts),
                None => Seq::empty(),
            }
            &&& samples_of(row, Metric::ActivePowerUpperBoundW, ts) == match active {
                Some(b) => at_most_one(b.upper, ts),
                None => Seq::empty(),
            }
            &&& samples_of(row, Metric::ReactivePowerLowerBoundVar, ts) == match reactive {
                Some(b) => at_most_one(b.lower, ts),
                None => Seq::empty(),
            }
            &&& samples_of(row, Metric::ReactivePowerUpperBoundVar, ts) == match reactive {
                Some(b) => at_most_one(b.upper, ts),
                None => Seq::empty(),
            }
        }),
{
    lemma_ring_of(t, Metric::ActivePowerW, ts);
    lemma_ring_of(t, Metric::ReactivePowerVar, ts);
    lemma_ring_of(t, Metric::FrequencyHz, ts);
    lemma_ring_of(t, Metric::SocPct, ts);
    lemma_ring_of(t, Metric::DcPowerW, ts);
    lemma_ring_of(t, Metric::EnergyWh, ts);
    lemma_ring_of(t, Metric::ActivePowerLowerBoundW, ts);
    lemma_ring_of(t, Metric::ActivePowerUpperBoundW, ts);
    lemma_ring_of(t, Metric::ReactivePowerLowerBoundVar, ts);
    lemma_ring_of(t, Metric::ReactivePowerUpperBoundVar, ts);
}

/// What a snapshot says of a metric is what the metric's ring gets of it,
/// where the metric is no upper bound of several bands.
pub proof fn law_ring_gets_the_metric(t: Telemetry, m: Metric, ts: Timestamp)
    requires
        m == Metric::ActivePowerUpperBoundW ==> (t.active_power_bounds matches Some(b) ==> b@.len()
            <= 1),
        m == Metric::ReactivePowerUpperBoundVar ==> (t.reactive_power_bounds matches Some(b)
            ==> b@.len() <= 1),
    ensures
        samples_of(snapshot_samples(t), m, ts) == at_most_one(t@.value_of(m), ts),
{
    lemma_ring_of(t, m, ts);
}

/// The ring entries of one metric, quantity by quantity.
proof fn lemma_ring_of(t: Telemetry, m: Metric, ts: Timestamp)
    ensures
        ({
            let active = match t.active_power_bounds {
                Some(b) => if b@.len() > 0 {
                    (b@[0].lower, b@[0].upper)
                } else {
                    (None, None)
                },
                None => (None, None),
            };
            let reactive = match t.reactive_power_bounds {
                Some(b) => if b@.len() > 0 {
                    (b@[0].lower, b@[0].upper)
                } else {
                    (None, None)
                },
                None => (None, None),
            };
            samples_of(snapshot_samples(t), m, ts) == match m {
                Metric::ActivePowerW => at_most_one(t.active_power_w, ts),
                Metric::ReactivePowerVar => at_most_one(t.reactive_power_var, ts),
                Metric::FrequencyHz => at_most_one(t.frequency_hz, ts),
                Metric::SocPct => at_most_one(t.soc_pct, ts),
                Metric::DcPowerW => at_most_one(t.dc_power_w, ts),
                Metric::EnergyWh => Seq::empty(),
                Metric::ActivePowerLowerBoundW => at_most_one(active.0, ts),
                Metric::ActivePowerUpperBoundW => at_most_one(active.1, ts),
                Metric::ReactivePowerLowerBoundVar => at_most_one(reactive.0, ts),
                Metric::ReactivePowerUpperBoundVar => at_most_one(reactive.1, ts),
            }
        }),
{
    let active = match t.active_power_bounds {
        Some(b) => if b@.len() > 0 {
            (b@[0].lower, b@[0].upper)
        } else {
            (None, None)
        },
        None => (None, None),
    };
    let reactive = match t.reactive_power_bounds {
        Some(b) => if b@.len() > 0 {
            (b@[0].lower, b@[0].upper)
        } else {
            (None, None)
        },
        None => (None, None),
    };
    let p1 = published(Metric::ActivePowerW, t.active_power_w);
    let p2 = published(Metric::ReactivePowerVar, t.reactive_power_var);
    let p3 = published(Metric::FrequencyHz, t.frequency_hz);
    let p4 = published(Metric::SocPct, t.soc_pct);
    let p5 = published(Metric::DcPowerW, t.dc_power_w);
    let p6 = published(Metric::ActivePowerLowerBoundW, active.0);
    let p7 = published(Metric::ActivePowerUpperBoundW, active.1);
    let p8 = published(Metric::ReactivePowerLowerBoundVar, reactive.0);
    let p9 = published(Metric::ReactivePowerUpperBoundVar, reactive.1);
    lemma_published(Metric::ActivePowerW, t.active_power_w, m, ts);
    lemma_published(Metric::ReactivePowerVar, t.reactive_power_var, m, ts);
    lemma_published(Metric::FrequencyHz, t.frequency_hz, m, ts);
    lemma_published(Metric::SocPct, t.soc_pct, m, ts);
    lemma_published(Metric::DcPowerW, t.dc_power_w, m, ts);
    lemma_published(Metric::ActivePowerLowerBoundW, active.0, m, ts);
    lemma_published(Metric::ActivePowerUpperBoundW, active.1, m, ts);
    lemma_published(Metric::ReactivePowerLowerBoundVar, reactive.0, m, ts);
    lemma_published(Metric::ReactivePowerUpperBoundVar, reactive.1, m, ts);
    lemma_samples_joined(p1, p2, m, ts);
    lemma_samples_joined(p1 + p2, p3, m, ts);
    lemma_samples_joined(p1 + p2 + p3, p4, m, ts);
    lemma_samples_joined(p1 + p2 + p3 + p4, p5, m, ts);
    lemma_samples_joined(p1 + p2 + p3 + p4 + p5, p6, m, ts);
    lemma_samples_joined(p1 + p2 + p3 + p4 + p5 + p6, p7, m, ts);
    lemma_samples_joined(p1 + p2 + p3 + p4 + p5 + p6 + p7, p8, m, ts);
    lemma_samples_joined(p1 + p2 + p3 + p4 + p5 + p6 + p7 + p8, p9, m, ts);
    let none = Seq::<Sample>::empty();
    assert forall|x: Seq<Sample>| #[trigger] (x + none) == x && none + x == x by {
        assert(x + none =~= x);
        assert(none + x =~= x);
    }
}

/// A row of samples holds something for a metric exactly when it names it, so
/// a snapshot opens rings for the metrics that it publishes and for no others.
pub proof fn law_rings_open_for_published_metrics(
    samples: Seq<(Metric, Single)>,
    m: Metric,
    ts: Timestamp,
)
    ensures
        samples_of(samples, m, ts).len() > 0 <==> exists|i: int|
            0 <= i < samples.len() && (#[trigger] samples[i]).0 == m,
    decreases samples.len(),
{
    if samples.len() > 0 {
        let before = samples.drop_last();
        law_rings_open_for_published_metrics(before, m, ts);
        if samples.last().0 == m {
            assert(samples[samples.len() - 1].0 == m);
        }
        assert forall|i: int| 0 <= i < before.len() implies #[trigger] before[i] == samples[i] by {}
        if samples_of(before, m, ts).len() > 0 {
            let i = choose|i: int| 0 <= i < before.len() && (#[trigger] before[i]).0 == m;
            assert(samples[i].0 == m);
        }
        if exists|i: int| 0 <= i < samples.len() && (#[trigger] samples[i]).0 == m {
            let i = choose|i: int| 0 <= i < samples.len() && (#[trigger] samples[i]).0 == m;
            if i < before.len() {
                assert(before[i].0 == m);
            }
        }
    }
}

proof fn lemma_same_metrics(s: Seq<Series>, t: Seq<Series>, m: Metric)
    requires
        s.len() == t.len(),
        forall|k: int| 0 <= k < s.len() ==> (#[trigger] s[k]).metric == t[k].metric,
    ensures
        series_index(s, m) == series_index(t, m),
    decreases s.len(),
{
    if s.len() > 0 && s[0].metric != m {
        let s1 = s.skip(1);
        let t1 = t.skip(1);
        assert forall|k: int| 0 <= k < s1.len() implies (#[trigger] s1[k]).metric == t1[k].metric by {
            assert(s1[k] == s[k + 1]);
            assert(t1[k] == t[k + 1]);
        }
        lemma_same_metrics(s1, t1, m);
    }
}

proof fn lemma_pushed_index(s: Seq<Series>, e: Series, m: Metric)
    ensures
        series_index(s, m) < s.len() ==> series_index(s.push(e), m) == series_index(s, m),
        series_index(s, m) == s.len() && e.metric == m ==> series_index(s.push(e), m) == s.len(),
        series_index(s, m) == s.len() && e.metric != m ==> series_index(s.push(e), m) == s.len()
            + 1,
    decreases s.len(),
{
    reveal_with_fuel(series_index, 2);
    let t = s.push(e);
    if s.len() == 0 {
        assert(t[0] == e);
        assert(t.skip(1).len() == 0);
    } else {
        assert(t[0] == s[0]);
        if s[0].metric != m {
            assert(t.skip(1) == s.skip(1).push(e));
            lemma_pushed_index(s.skip(1), e, m);
        }
    }
}

} // verus!
