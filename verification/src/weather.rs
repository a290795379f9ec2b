//! A site's weather: a clear-sky day, and clouds that pass over it.
//!
//! Sunlight is the clear-sky output times the transmission of every cloud.
//! Clouds come from scripts, or at random where a rate is configured. Sines,
//! logarithms and random draws are handed in.

use crate::ev_presets::EPSILON;
use crate::single::{Single, HUNDRED, ONE, ZERO};
use crate::time::{utc_now, Span, Timestamp, LAST_SEC, NANOS_PER_SEC};
use crate::timeout_tracker::{span_difference, span_sum};
use vstd::prelude::*;

verus! {

/// How long a cloud is kept after it has ended, in seconds, so that a reader
/// with a lag still finds it; a step of the clock longer than this is no
/// elapsed time but an anomaly.
pub const RETENTION_SECS: u64 = 3_600;

/// The seconds of a day: the length of a cloud whose drawn length is unusable.
pub const DAY_SECS: u64 = 86_400;

/// An hour in seconds, in single precision.
pub const HOUR_S: u32 = 0x4561_0000;

/// Pi in single precision.
pub const PI: u32 = 0x4049_0fdb;

/// The clear-sky window and the generator of clouds.
#[derive(Clone, Copy, Debug)]
pub struct WeatherConfig {
    /// The time of day, UTC, at which the clear-sky output starts.
    pub sunrise: Span,
    /// The time of day, UTC, at which it ends.
    pub sunset: Span,
    /// The clear-sky output at solar noon, in percent.
    pub peak_pct: Single,
    /// Clouds per hour; none to have only scripted ones.
    pub cloud_rate_per_h: Option<Single>,
    /// The range of a random cloud's depth, in percent.
    pub cloud_depth: (Single, Single),
    /// The range of its duration, in seconds.
    pub cloud_duration: (Single, Single),
    /// The range of its ramps, in seconds.
    pub cloud_ramp: (Single, Single),
    /// The seed of the random draws.
    pub seed: Option<u64>,
}

impl WeatherConfig {
    pub open spec fn standard() -> WeatherConfig {
        WeatherConfig {
            sunrise: Span { secs: 21_600, nanos: 0 },
            sunset: Span { secs: 72_000, nanos: 0 },
            peak_pct: Single::lit(HUNDRED),
            cloud_rate_per_h: None,
            cloud_depth: (Single::lit(0x41a0_0000), Single::lit(0x428c_0000)),
            cloud_duration: (Single::lit(0x4270_0000), Single::lit(0x4416_0000)),
            cloud_ramp: (Single::lit(0x4120_0000), Single::lit(0x4270_0000)),
            seed: None,
        }
    }

    pub open spec fn wf(self) -> bool {
        self.sunrise.wf() && self.sunset.wf()
    }

    /// The fraction of the day's light that has passed at `t`; none in the
    /// dark.
    pub open spec fn day_fraction(self, t: Timestamp) -> Option<Single> {
        let secs = t.secs as int % 86_400;
        let (rise, set) = (self.sunrise.secs, self.sunset.secs);
        if secs < rise || secs > set || set <= rise {
            None
        } else {
            Some(
                Single::fint((secs - rise) as nat).fdiv(Single::fint((set - rise) as nat)),
            )
        }
    }

    /// The rate of the generator, if it is on.
    pub open spec fn rate(self) -> Option<Single> {
        match self.cloud_rate_per_h {
            Some(r) => if Single::lit(ZERO).flt(r) {
                Some(r)
            } else {
                None
            },
            None => None,
        }
    }

    fn rate_on(&self) -> (r: Option<Single>)
        ensures
            r == self.rate(),
    {
        match self.cloud_rate_per_h {
            Some(r) => if Single::from_bits(ZERO).lt(r) {
                Some(r)
            } else {
                None
            },
            None => None,
        }
    }
}

impl Default for WeatherConfig {
    /// Light from 06:00 to 20:00, a peak of 100 %, no random clouds.
    fn default() -> (r: Self)
        ensures
            r == WeatherConfig::standard(),
    {
        WeatherConfig {
            sunrise: Span { secs: 21_600, nanos: 0 },
            sunset: Span { secs: 72_000, nanos: 0 },
            peak_pct: Single::from_bits(HUNDRED),
            cloud_rate_per_h: None,
            cloud_depth: (Single::from_bits(0x41a0_0000), Single::from_bits(0x428c_0000)),
            cloud_duration: (Single::from_bits(0x4270_0000), Single::from_bits(0x4416_0000)),
            cloud_ramp: (Single::from_bits(0x4120_0000), Single::from_bits(0x4270_0000)),
            seed: None,
        }
    }
}

/// A cloud: its attenuation ramps up, holds and ramps down.
#[derive(Clone, Copy, Debug, PartialEq, Eq, Structural)]
pub struct CloudEvent {
    pub start: Timestamp,
    pub ramp_in: Span,
    pub plateau: Span,
    pub ramp_out: Span,
    /// The attenuation of the plateau, in percent.
    pub depth_pct: Single,
}

/// The length of the retention in nanoseconds.
pub open spec fn retention() -> int {
    RETENTION_SECS * NANOS_PER_SEC
}

impl CloudEvent {
    /// The whole length in nanoseconds.
    pub open spec fn length(self) -> int {
        self.ramp_in.total() + self.plateau.total() + self.ramp_out.total()
    }

    /// When the attenuation is over, in nanoseconds since the epoch. A length
    /// past the longest time delta counts as none.
    pub open spec fn end_total(self) -> int {
        self.start.total() + if self.length() <= crate::time::longest_delta() {
            self.length()
        } else {
            0
        }
    }

    /// The cloud ends, and is forgotten, within the calendar.
    pub open spec fn wf(self) -> bool {
        &&& self.start.wf()
        &&& self.ramp_in.wf()
        &&& self.plateau.wf()
        &&& self.ramp_out.wf()
        &&& self.length() < (u64::MAX + 1) * NANOS_PER_SEC
        &&& self.end_total() + retention() <= crate::time::last_instant()
    }

    /// The parts are spans that have a sum, and the end lies in the calendar.
    pub fn fits(&self) -> (r: bool)
        requires
            self.start.wf(),
            self.ramp_in.wf(),
            self.plateau.wf(),
            self.ramp_out.wf(),
        ensures
            r == self.wf(),
    {
        let secs: u128 = self.ramp_in.secs as u128 + self.plateau.secs as u128
            + self.ramp_out.secs as u128;
        let nanos: u128 = self.ramp_in.nanos as u128 + self.plateau.nanos as u128
            + self.ramp_out.nanos as u128;
        let length: u128 = secs * 1_000_000_000 + nanos;
        if length >= 18_446_744_073_709_551_616_000_000_000 {
            return false;
        }
        let longest: u128 = 9_223_372_036_854_775_807_000_000;
        let run: u128 = if length <= longest {
            length
        } else {
            0
        };
        let start: i128 = self.start.secs as i128 * 1_000_000_000 + self.start.nanos as i128;
        let last: i128 = LAST_SEC as i128 * 1_000_000_000 + 999_999_999;
        start + run as i128 + 3_600_000_000_000 <= last
    }

    /// When the attenuation is over.
    pub fn end(&self) -> (r: Timestamp)
        requires
            self.wf(),
        ensures
            r.wf(),
            r.total() == self.end_total(),
    {
        let two = span_sum(self.ramp_in, self.plateau);
        let length = span_sum(two, self.ramp_out);
        let longest = Span { secs: 9_223_372_036_854_775, nanos: 807_000_000 };
        let run = match span_difference(longest, length) {
            Some(_) => length,
            None => Span { secs: 0, nanos: 0 },
        };
        match self.start.after(run) {
            Some(t) => t,
            None => self.start,
        }
    }

    /// The depth as a fraction.
    pub open spec fn depth(self) -> Single {
        self.depth_pct.fdiv(Single::lit(HUNDRED)).fclamp(Single::lit(ZERO), Single::lit(ONE))
    }

    /// The fraction of the light that the cloud takes away at `t`.
    pub open spec fn attenuation(self, t: Timestamp) -> Single {
        let elapsed = t.total() - self.start.total();
        let held = self.ramp_in.total() + self.plateau.total();
        let eps = Single::lit(EPSILON);
        if elapsed < 0 || t.total() >= self.end_total() {
            Single::lit(ZERO)
        } else if elapsed < self.ramp_in.total() {
            self.depth().fmul(
                crate::time::spec_since(t, self.start).spec_seconds().fdiv(
                    self.ramp_in.spec_seconds().fmax(eps),
                ),
            )
        } else if elapsed < held {
            self.depth()
        } else {
            let rest = elapsed - held;
            let into = Span {
                secs: (rest / NANOS_PER_SEC as int) as u64,
                nanos: (rest % NANOS_PER_SEC as int) as u32,
            };
            self.depth().fmul(
                Single::lit(ONE).fsub(
                    into.spec_seconds().fdiv(self.ramp_out.spec_seconds().fmax(eps)),
                ),
            )
        }
    }

    pub fn attenuation_at(&self, t: Timestamp) -> (r: Single)
        requires
            self.wf(),
            t.wf(),
        ensures
            r == self.attenuation(t),
    {
        if t.before(self.start) || !t.before(self.end()) {
            return Single::from_bits(ZERO);
        }
        let depth = self.depth_pct.over(Single::from_bits(HUNDRED)).clamp(
            Single::from_bits(ZERO),
            Single::from_bits(ONE),
        );
        let eps = Single::from_bits(EPSILON);
        let elapsed = t.since(self.start);
        if span_difference(elapsed, self.ramp_in).is_none() {
            let frac = elapsed.seconds().over(self.ramp_in.seconds().max(eps));
            return depth.times(frac);
        }
        let held = span_sum(self.ramp_in, self.plateau);
        match span_difference(elapsed, held) {
            None => depth,
            Some(into) => {
                proof {
                    let rest = t.total() - self.start.total() - held.total();
                    crate::time::lemma_span_total_injective(
                        into,
                        Span {
                            secs: (rest / NANOS_PER_SEC as int) as u64,
                            nanos: (rest % NANOS_PER_SEC as int) as u32,
                        },
                    );
                }
                let frac = into.seconds().over(self.ramp_out.seconds().max(eps));
                depth.times(Single::from_bits(ONE).minus(frac))
            },
        }
    }
}

/// `a` less twice `b`, or nothing left.
pub open spec fn plateau_total(duration: Span, ramp: Span) -> int {
    if duration.total() >= 2 * ramp.total() {
        duration.total() - 2 * ramp.total()
    } else {
        0
    }
}

/// The plateau that a duration leaves between two ramps.
pub fn plateau_of(duration: Span, ramp: Span) -> (r: Span)
    requires
        duration.wf(),
        ramp.wf(),
    ensures
        r.wf(),
        r.total() == plateau_total(duration, ramp),
{
    match span_difference(duration, ramp) {
        Some(rest) => match span_difference(rest, ramp) {
            Some(left) => left,
            None => Span { secs: 0, nanos: 0 },
        },
        None => Span { secs: 0, nanos: 0 },
    }
}

/// A cloud from `start` with equal ramps.
pub open spec fn is_cloud(
    e: CloudEvent,
    start: Timestamp,
    depth_pct: Single,
    duration: Span,
    ramp: Span,
) -> bool {
    &&& e.start == start
    &&& e.ramp_in == ramp
    &&& e.ramp_out == ramp
    &&& e.plateau.wf()
    &&& e.plateau.total() == plateau_total(duration, ramp)
    &&& e.depth_pct == depth_pct.fclamp(Single::lit(ZERO), Single::lit(HUNDRED))
}

/// Makes a cloud from `start` with equal ramps; the depth is limited to 0 to
/// 100 percent.
pub fn cloud(start: Timestamp, depth_pct: Single, duration: Span, ramp: Span) -> (r: CloudEvent)
    requires
        duration.wf(),
        ramp.wf(),
    ensures
        is_cloud(r, start, depth_pct, duration, ramp),
{
    CloudEvent {
        start,
        ramp_in: ramp,
        plateau: plateau_of(duration, ramp),
        ramp_out: ramp,
        depth_pct: depth_pct.clamp(Single::from_bits(ZERO), Single::from_bits(HUNDRED)),
    }
}

/// A number of seconds as a span; `cap` where it has none.
pub open spec fn capped_span(v: Single, cap: Span) -> Span {
    match v.fspan() {
        Some(s) => s,
        None => cap,
    }
}

/// An unusable number of seconds degrades to `cap` and stops nothing.
pub fn saturating_secs_to_duration(v: Single, cap: Span) -> (r: Span)
    requires
        cap.wf(),
    ensures
        r == capped_span(v, cap),
        r.wf(),
{
    match v.to_span() {
        Some(s) => s,
        None => cap,
    }
}

/// The gap to the next random cloud, for the logarithm of a uniform draw
/// between zero and one; an hour where it is unusable.
pub open spec fn exp_gap(log_draw: Single, rate: Single) -> Span {
    capped_span(
        log_draw.fneg().fdiv(rate).fmul(Single::lit(HOUR_S)),
        Span { secs: RETENTION_SECS, nanos: 0 },
    )
}

/// The time between two arrivals of a Poisson process with `rate` per hour.
pub fn exp_sample(log_draw: Single, rate: Single) -> (r: Span)
    ensures
        r == exp_gap(log_draw, rate),
        r.wf(),
{
    saturating_secs_to_duration(
        log_draw.negated().over(rate).times(Single::from_bits(HOUR_S)),
        Span { secs: RETENTION_SECS, nanos: 0 },
    )
}

/// The bounds of a uniform draw, in order; none where the range is a point and
/// nothing is drawn.
pub open spec fn draw_bounds(range: (Single, Single)) -> Option<(Single, Single)> {
    let lo = range.0.fmin(range.1);
    let hi = range.0.fmax(range.1);
    if hi.fle(lo) {
        None
    } else {
        Some((lo, hi))
    }
}

/// See [`draw_bounds`].
pub fn uniform_bounds(range: (Single, Single)) -> (r: Option<(Single, Single)>)
    ensures
        r == draw_bounds(range),
{
    let lo = range.0.min(range.1);
    let hi = range.0.max(range.1);
    if hi.le(lo) {
        None
    } else {
        Some((lo, hi))
    }
}

/// The value of a uniform draw: `draw` itself, or the point of the range.
pub open spec fn drawn(range: (Single, Single), draw: Single) -> Single {
    if draw_bounds(range) is None {
        range.0.fmin(range.1)
    } else {
        draw
    }
}

/// See [`drawn`].
pub fn uniform(range: (Single, Single), draw: Single) -> (r: Single)
    ensures
        r == drawn(range, draw),
{
    match uniform_bounds(range) {
        None => range.0.min(range.1),
        Some(_) => draw,
    }
}

/// What the generator needs next to move on to the present.
#[derive(Clone, Copy, Debug, PartialEq, Eq, Structural)]
pub enum SkyStep {
    /// Nothing: it is there.
    Done,
    /// A draw for the time from this point to the next cloud.
    Gap { from: Timestamp },
    /// Draws for the cloud that arrives at this point.
    Cloud { at: Timestamp },
}

/// The draws for one cloud.
#[derive(Clone, Copy, Debug)]
pub struct CloudDraws {
    pub depth: Single,
    pub duration: Single,
    pub ramp: Single,
}

#[derive(Debug)]
pub struct Weather {
    pub cfg: WeatherConfig,
    pub events: Vec<CloudEvent>,
    /// The latest point that the weather was moved on to.
    pub anchor: Option<Timestamp>,
    /// When the next random cloud arrives.
    pub next_arrival: Option<Timestamp>,
}

/// The light that passes the clouds at `t`, as a fraction.
pub open spec fn transmission(events: Seq<CloudEvent>, t: Timestamp) -> Single
    decreases events.len(),
{
    if events.len() == 0 {
        Single::lit(ONE)
    } else {
        transmission(events.drop_last(), t).fmul(
            Single::lit(ONE).fsub(events.last().attenuation(t)),
        )
    }
}

/// The clouds that are not forgotten at `now`.
pub open spec fn remembered(now: Timestamp) -> spec_fn(CloudEvent) -> bool {
    |e: CloudEvent| e.end_total() + retention() >= now.total()
}

/// A point from which a day of clouds and an hour of memory fit the calendar.
pub open spec fn roomy(t: Timestamp) -> bool {
    t.wf() && t.total() + 4 * DAY_SECS * NANOS_PER_SEC <= crate::time::last_instant()
}

/// The length of a drawn cloud: as drawn, or a day where that is unusable.
pub open spec fn is_drawn_cloud(e: CloudEvent, at: Timestamp, cfg: WeatherConfig, d: CloudDraws) -> bool {
    let depth = drawn(cfg.cloud_depth, d.depth);
    let zero = Single::lit(ZERO);
    let day = Span { secs: DAY_SECS, nanos: 0 };
    let duration = capped_span(drawn(cfg.cloud_duration, d.duration).fmax(zero), day);
    let ramp = capped_span(drawn(cfg.cloud_ramp, d.ramp).fmax(zero), day);
    &&& e.wf()
    &&& is_cloud(e, at, depth, duration, ramp) || (is_cloud(e, at, depth, day, day) && forall|
        long: CloudEvent,
    | #[trigger]
        is_cloud(long, at, depth, duration, ramp) ==> !long.wf())
}

impl Weather {
    pub open spec fn wf(self) -> bool {
        &&& self.cfg.wf()
        &&& forall|i: int| 0 <= i < self.events@.len() ==> (#[trigger] self.events@[i]).wf()
        &&& self.anchor matches Some(a) ==> a.wf()
        &&& self.next_arrival matches Some(a) ==> a.wf()
    }

    /// Fresh weather: no clouds and no past.
    pub fn new(cfg: WeatherConfig) -> (r: Self)
        requires
            cfg.wf(),
        ensures
            r.wf(),
            r.cfg == cfg,
            r.events@.len() == 0,
            r.anchor is None,
            r.next_arrival is None,
    {
        Weather { cfg, events: Vec::new(), anchor: None, next_arrival: None }
    }

    pub fn config(&self) -> (r: &WeatherConfig)
        ensures
            *r == self.cfg,
    {
        &self.cfg
    }

    pub fn config_mut(&mut self) -> (r: &mut WeatherConfig)
        ensures
            *r == old(self).cfg,
            *final(self) == (Weather { cfg: *final(r), ..*old(self) }),
    {
        &mut self.cfg
    }

    pub fn events(&self) -> (r: &Vec<CloudEvent>)
        ensures
            *r == self.events,
    {
        &self.events
    }

    pub fn anchor(&self) -> (r: Option<Timestamp>)
        ensures
            r == self.anchor,
    {
        self.anchor
    }

    /// The angle of the sun at `t`, whose sine scales the clear-sky output;
    /// none in the dark.
    pub fn sun_angle(&self, t: Timestamp) -> (r: Option<Single>)
        requires
            t.wf(),
        ensures
            r == match self.cfg.day_fraction(t) {
                Some(f) => Some(Single::lit(PI).fmul(f)),
                None => None,
            },
    {
        let secs: u64 = t.seconds_of_day() as u64;
        let rise: u64 = self.cfg.sunrise.secs;
        let set: u64 = self.cfg.sunset.secs;
        if secs < rise || secs > set || set <= rise {
            return None;
        }
        let frac = Single::of_integer(secs - rise).over(Single::of_integer(set - rise));
        Some(Single::from_bits(PI).times(frac))
    }

    /// The clear-sky output at `t`, `sine` being that of the sun's angle.
    pub open spec fn clear_sky(self, t: Timestamp, sine: Single) -> Single {
        if self.cfg.day_fraction(t) is None {
            Single::lit(ZERO)
        } else {
            self.cfg.peak_pct.fmul(sine)
        }
    }

    pub fn clear_sky_pct(&self, t: Timestamp, sine: Single) -> (r: Single)
        requires
            t.wf(),
        ensures
            r == self.clear_sky(t, sine),
    {
        match self.sun_angle(t) {
            Some(_) => self.cfg.peak_pct.times(sine),
            None => Single::from_bits(ZERO),
        }
    }

    /// The sunlight at `t`.
    pub open spec fn sunlight(self, t: Timestamp, sine: Single) -> Single {
        self.clear_sky(t, sine).fmul(transmission(self.events@, t))
    }

    /// The clear-sky output attenuated by every cloud; overlapping clouds
    /// compound.
    pub fn pct_at(&self, t: Timestamp, sine: Single) -> (r: Single)
        requires
            self.wf(),
            t.wf(),
        ensures
            r == self.sunlight(t, sine),
    {
        let mut passed = Single::from_bits(ONE);
        let mut i: usize = 0;
        assert(self.events@.take(0) =~= Seq::empty());
        while i < self.events.len()
            invariant
                i <= self.events@.len(),
                self.wf(),
                t.wf(),
                passed == transmission(self.events@.take(i as int), t),
            decreases self.events@.len() - i,
        {
            assert(self.events@.take(i + 1).drop_last() =~= self.events@.take(i as int));
            assert(self.events@.take(i + 1).last() == self.events@[i as int]);
            let e = self.events[i];
            passed = passed.times(Single::from_bits(ONE).minus(e.attenuation_at(t)));
            i += 1;
        }
        assert(self.events@.take(self.events@.len() as int) =~= self.events@);
        self.clear_sky_pct(t, sine).times(passed)
    }

    /// The clock went back, which moves nothing on.
    pub open spec fn steps_back(self, now: Timestamp) -> bool {
        self.anchor matches Some(a) && now.total() < a.total()
    }

    /// The clock leapt past the retention, which is no elapsed time.
    pub open spec fn leaps(self, now: Timestamp) -> bool {
        self.anchor matches Some(a) && now.total() - a.total() > retention()
    }

    /// The weather moved on to `now` with the present next arrival: the
    /// clouds that ended too long ago are forgotten.
    pub open spec fn is_settled(before: Weather, after: Weather, now: Timestamp) -> bool {
        &&& after.cfg == before.cfg
        &&& after.anchor == Some(now)
        &&& after.next_arrival == before.next_arrival
        &&& after.events@ == before.events@.filter(remembered(now))
    }

    fn settle(&mut self, now: Timestamp)
        requires
            old(self).wf(),
            now.wf(),
        ensures
            final(self).wf(),
            Self::is_settled(*old(self), *final(self), now),
    {
        let ghost before = self.events@;
        let mut kept: Vec<CloudEvent> = Vec::new();
        let mut i: usize = 0;
        while i < self.events.len()
            invariant
                i <= before.len(),
                self.events@ == before,
                self.wf(),
                now.wf(),
                kept@ == before.take(i as int).filter(remembered(now)),
                forall|k: int| 0 <= k < kept@.len() ==> (#[trigger] kept@[k]).wf(),
            decreases before.len() - i,
        {
            let e = self.events[i];
            proof {
                assert(before.take(i + 1) =~= before.take(i as int).push(e));
                before.take(i as int).lemma_filter_push(e, remembered(now));
            }
            let end = e.end();
            let keep = match end.after(Span { secs: RETENTION_SECS, nanos: 0 }) {
                Some(last) => !last.before(now),
                None => true,
            };
            if keep {
                kept.push(e);
            }
            i += 1;
        }
        assert(before.take(before.len() as int) =~= before);
        self.events = kept;
        self.anchor = Some(now);
    }

    /// `r` is what the weather needs next, given its next arrival: the cloud
    /// if it has arrived, else nothing, and then the weather has settled.
    pub open spec fn is_arrival_answer(
        before: Weather,
        after: Weather,
        arrival: Timestamp,
        now: Timestamp,
        r: SkyStep,
    ) -> bool {
        let primed = Weather { next_arrival: Some(arrival), ..before };
        if arrival.total() <= now.total() {
            r == SkyStep::Cloud { at: arrival } && after == primed
        } else {
            r == SkyStep::Done && Self::is_settled(primed, after, now)
        }
    }

    fn face_arrival(&mut self, arrival: Timestamp, now: Timestamp) -> (r: SkyStep)
        requires
            old(self).wf(),
            arrival.wf(),
            now.wf(),
        ensures
            final(self).wf(),
            Self::is_arrival_answer(*old(self), *final(self), arrival, now, r),
    {
        self.next_arrival = Some(arrival);
        if now.before(arrival) {
            self.settle(now);
            SkyStep::Done
        } else {
            SkyStep::Cloud { at: arrival }
        }
    }

    /// Starts to move the weather on to `now`.
    ///
    /// A step back moves nothing. A leap drops the arrival that was awaited,
    /// so that the gap is not filled with clouds; so does a generator that is
    /// off, whose clock stops with it.
    pub fn advance(&mut self, now: Timestamp) -> (r: SkyStep)
        requires
            old(self).wf(),
            now.wf(),
        ensures
            final(self).wf(),
            old(self).steps_back(now) ==> r == SkyStep::Done && *final(self) == *old(self),
            !old(self).steps_back(now) ==> match old(self).cfg.rate() {
                None => r == SkyStep::Done && Self::is_settled(
                    Weather { next_arrival: None, ..*old(self) },
                    *final(self),
                    now,
                ),
                Some(rate) => if old(self).leaps(now) || old(self).next_arrival is None {
                    &&& r == SkyStep::Gap {
                        from: if old(self).leaps(now) || old(self).anchor is None {
                            now
                        } else {
                            old(self).anchor->0
                        },
                    }
                    &&& *final(self) == Weather { next_arrival: None, ..*old(self) }
                } else {
                    Self::is_arrival_answer(
                        *old(self),
                        *final(self),
                        old(self).next_arrival->0,
                        now,
                        r,
                    )
                },
            },
    {
        let mut base = now;
        if let Some(a) = self.anchor {
            if now.before(a) {
                return SkyStep::Done;
            }
            let step = now.since(a);
            if step.secs > RETENTION_SECS || (step.secs == RETENTION_SECS && step.nanos > 0) {
                self.next_arrival = None;
            } else {
                base = a;
            }
        }
        match self.cfg.rate_on() {
            Some(_) => match self.next_arrival {
                None => SkyStep::Gap { from: base },
                Some(arrival) => self.face_arrival(arrival, now),
            },
            None => {
                self.next_arrival = None;
                self.settle(now);
                SkyStep::Done
            },
        }
    }

    /// The arrival after a gap; one past the calendar comes after an hour.
    pub open spec fn arrival(from: Timestamp, gap: Span) -> Timestamp {
        match crate::time::later(from, gap) {
            Some(t) => t,
            None => crate::time::later(from, Span { secs: RETENTION_SECS, nanos: 0 })->0,
        }
    }

    /// Answers [`SkyStep::Gap`] with the logarithm of a uniform draw.
    pub fn take_gap(&mut self, now: Timestamp, from: Timestamp, log_draw: Single) -> (r: SkyStep)
        requires
            old(self).wf(),
            now.wf(),
            roomy(from),
            old(self).cfg.rate() is Some,
        ensures
            final(self).wf(),
            Self::is_arrival_answer(
                *old(self),
                *final(self),
                Self::arrival(from, exp_gap(log_draw, old(self).cfg.rate()->0)),
                now,
                r,
            ),
    {
        let rate = match self.cfg.rate_on() {
            Some(r) => r,
            None => Single::from_bits(ONE),
        };
        let gap = exp_sample(log_draw, rate);
        let arrival = match from.after(gap) {
            Some(t) => t,
            None => match from.after(Span { secs: RETENTION_SECS, nanos: 0 }) {
                Some(t) => t,
                None => from,
            },
        };
        self.face_arrival(arrival, now)
    }

    /// Answers [`SkyStep::Cloud`]: the cloud joins the list, and the gap to
    /// the next one is asked for.
    pub fn take_cloud(&mut self, at: Timestamp, draws: CloudDraws) -> (r: SkyStep)
        requires
            old(self).wf(),
            roomy(at),
        ensures
            final(self).wf(),
            r == (SkyStep::Gap { from: at }),
            final(self).events@.len() == old(self).events@.len() + 1,
            final(self).events@.drop_last() == old(self).events@,
            is_drawn_cloud(final(self).events@.last(), at, old(self).cfg, draws),
            final(self).cfg == old(self).cfg,
            final(self).anchor == old(self).anchor,
            final(self).next_arrival == old(self).next_arrival,
    {
        let zero = Single::from_bits(ZERO);
        let day = Span { secs: DAY_SECS, nanos: 0 };
        let depth = uniform(self.cfg.cloud_depth, draws.depth);
        let duration = saturating_secs_to_duration(
            uniform(self.cfg.cloud_duration, draws.duration).max(zero),
            day,
        );
        let ramp = saturating_secs_to_duration(
            uniform(self.cfg.cloud_ramp, draws.ramp).max(zero),
            day,
        );
        let wanted = cloud(at, depth, duration, ramp);
        let e = if wanted.fits() {
            wanted
        } else {
            cloud(at, depth, day, day)
        };
        proof {
            if !wanted.wf() {
                assert forall|long: CloudEvent| #[trigger]
                    is_cloud(long, at, depth, duration, ramp) implies !long.wf() by {
                    crate::time::lemma_span_total_injective(long.plateau, wanted.plateau);
                    assert(long == wanted);
                }
            }
        }
        self.events.push(e);
        assert(self.events@.drop_last() =~= old(self).events@);
        SkyStep::Gap { from: at }
    }

    /// Adds one scripted cloud from `start`.
    pub fn pass_cloud_from(
        &mut self,
        start: Timestamp,
        depth_pct: Single,
        duration: Span,
        ramp: Span,
    )
        requires
            old(self).wf(),
            start.wf(),
            duration.wf(),
            ramp.wf(),
            forall|e: CloudEvent| #[trigger]
                is_cloud(e, start, depth_pct, duration, ramp) ==> e.wf(),
        ensures
            final(self).wf(),
            final(self).events@.len() == old(self).events@.len() + 1,
            final(self).events@.drop_last() == old(self).events@,
            is_cloud(final(self).events@.last(), start, depth_pct, duration, ramp),
            final(self).cfg == old(self).cfg,
            final(self).anchor == old(self).anchor,
            final(self).next_arrival == old(self).next_arrival,
    {
        let e = cloud(start, depth_pct, duration, ramp);
        self.events.push(e);
        assert(self.events@.drop_last() =~= old(self).events@);
    }

    /// The answer to a scripted cloud from `start`: it is added where it fits
    /// the calendar, else nothing changes.
    pub open spec fn is_pass(
        before: Weather,
        after: Weather,
        start: Timestamp,
        depth_pct: Single,
        duration: Span,
        ramp: Span,
        r: bool,
    ) -> bool {
        &&& r <==> forall|e: CloudEvent| #[trigger]
            is_cloud(e, start, depth_pct, duration, ramp) ==> e.wf()
        &&& if r {
            &&& after.events@.len() == before.events@.len() + 1
            &&& after.events@.drop_last() == before.events@
            &&& is_cloud(after.events@.last(), start, depth_pct, duration, ramp)
            &&& after.cfg == before.cfg
            &&& after.anchor == before.anchor
            &&& after.next_arrival == before.next_arrival
        } else {
            after == before
        }
    }

    /// Adds one scripted cloud from the anchor, or from the machine's present
    /// where the weather was never moved on. A cloud that would outlast the
    /// calendar is refused.
    pub fn pass_cloud(&mut self, depth_pct: Single, duration: Span, ramp: Span) -> (r: bool)
        requires
            old(self).wf(),
            duration.wf(),
            ramp.wf(),
        ensures
            final(self).wf(),
            old(self).anchor matches Some(a) ==> Self::is_pass(
                *old(self),
                *final(self),
                a,
                depth_pct,
                duration,
                ramp,
                r,
            ),
            old(self).anchor is None ==> exists|now: Timestamp|
                now.wf() && #[trigger] Self::is_pass(
                    *old(self),
                    *final(self),
                    now,
                    depth_pct,
                    duration,
                    ramp,
                    r,
                ),
    {
        let start = match self.anchor {
            Some(a) => a,
            None => utc_now(),
        };
        let e = cloud(start, depth_pct, duration, ramp);
        proof {
            assert forall|other: CloudEvent| #[trigger]
                is_cloud(other, start, depth_pct, duration, ramp) implies other == e by {
                crate::time::lemma_span_total_injective(other.plateau, e.plateau);
            }
        }
        if !e.fits() {
            proof {
                assert(is_cloud(e, start, depth_pct, duration, ramp));
                assert(Self::is_pass(*old(self), *self, start, depth_pct, duration, ramp, false));
            }
            return false;
        }
        self.pass_cloud_from(start, depth_pct, duration, ramp);
        assert(Self::is_pass(*old(self), *self, start, depth_pct, duration, ramp, true));
        true
    }
}

/// A step back of the clock leaves the weather as it is: see
/// [`Weather::advance`]. Moving on twice to the same point forgets no more
/// than once.
pub proof fn law_settling_is_idempotent(events: Seq<CloudEvent>, now: Timestamp)
    ensures
        events.filter(remembered(now)).filter(remembered(now)) == events.filter(remembered(now)),
{
    lemma_filter_all(events.filter(remembered(now)), remembered(now), events);
}

proof fn lemma_filter_all(
    s: Seq<CloudEvent>,
    p: spec_fn(CloudEvent) -> bool,
    from: Seq<CloudEvent>,
)
    requires
        s == from.filter(p),
    ensures
        s.filter(p) == s,
{
    assert forall|i: int| 0 <= i < s.len() implies p(#[trigger] s[i]) by {
        from.lemma_filter_pred(p, i);
    }
    lemma_filter_keeps(s, p);
}

proof fn lemma_filter_keeps(s: Seq<CloudEvent>, p: spec_fn(CloudEvent) -> bool)
    requires
        forall|i: int| 0 <= i < s.len() ==> p(#[trigger] s[i]),
    ensures
        s.filter(p) == s,
    decreases s.len(),
{
    reveal(Seq::filter);
    if s.len() > 0 {
        let rest = s.drop_last();
        assert forall|i: int| 0 <= i < rest.len() implies p(#[trigger] rest[i]) by {
            assert(rest[i] == s[i]);
        }
        lemma_filter_keeps(rest, p);
        assert(p(s[s.len() - 1]));
        assert(s =~= rest.push(s.last()));
    }
}

/// A forgotten cloud cannot matter to a reader whose lag is within the
/// retention: at the point it reads, the cloud attenuates nothing.
pub proof fn law_forgotten_clouds_are_over(e: CloudEvent, now: Timestamp, read_at: Timestamp)
    requires
        !remembered(now)(e),
        read_at.total() >= now.total() - retention(),
    ensures
        e.attenuation(read_at) == Single::lit(ZERO),
{
}

/// Before its start and from its end on, a cloud attenuates nothing.
pub proof fn law_cloud_is_over_outside(e: CloudEvent, t: Timestamp)
    requires
        t.total() < e.start.total() || t.total() >= e.end_total(),
    ensures
        e.attenuation(t) == Single::lit(ZERO),
{
}

/// On the plateau the attenuation is the depth.
pub proof fn law_plateau_is_the_depth(e: CloudEvent, t: Timestamp)
    requires
        e.wf(),
        e.length() <= crate::time::longest_delta(),
        e.start.total() + e.ramp_in.total() <= t.total() < e.start.total() + e.ramp_in.total()
            + e.plateau.total(),
    ensures
        e.attenuation(t) == e.depth(),
{
}

} // verus!
