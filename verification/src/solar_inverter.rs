//! A solar inverter: it produces what the sun allows, unless curtailed.

use crate::accuracy;
use crate::axis::{AxisConfig, IdleTarget, PowerAxis, StepCtx};
use crate::bounds::VecBounds;
use crate::component::{
    KnobKind, KnobSnapshot, ScalarReading, SetpointError, Telemetry, TelemetryView,
};
use crate::dynamic_scalar::{DynamicScalar, Outcome, ScalarView};
use crate::ev_presets::EPSILON;
use crate::grid_state::GridState;
use crate::inverter::{common_inverter_kwargs, inverter_telemetry, CommonInverterCfg};
use crate::kwargs::{add_if, KwValue, Kwarg};
use crate::reactive::ReactiveCapability;
use crate::runtime::Health;
use crate::single::{Single, HUNDRED, INFINITY, ONE, ZERO};
use crate::text::numbered;
use crate::time::{before_by, Span, Timestamp};
use crate::timeout_tracker::SetpointAxis;
use vstd::prelude::*;

verus! {

/// Where an inverter's sunlight comes from.
#[derive(Debug)]
pub enum SunlightSource {
    /// The site's weather, `lag` ago and with a random jitter; `cached` is the
    /// last reading.
    Follow { lag: Span, jitter_pct: Single, cached: Single },
    /// A number or an expression.
    Manual(DynamicScalar),
}

/// A [`SunlightSource`] with its scalar as a view.
pub enum SunlightView {
    Follow { lag: Span, jitter_pct: Single, cached: Single },
    Manual(ScalarView),
}

impl View for SunlightSource {
    type V = SunlightView;

    open spec fn view(&self) -> SunlightView {
        match *self {
            SunlightSource::Follow { lag, jitter_pct, cached } => SunlightView::Follow {
                lag,
                jitter_pct,
                cached,
            },
            SunlightSource::Manual(s) => SunlightView::Manual(s@),
        }
    }
}

impl Clone for SunlightSource {
    /// A copy of its own: later readings of the original do not reach it.
    fn clone(&self) -> (r: Self)
        ensures
            r@ == self@,
    {
        match self {
            SunlightSource::Follow { lag, jitter_pct, cached } => SunlightSource::Follow {
                lag: *lag,
                jitter_pct: *jitter_pct,
                cached: *cached,
            },
            SunlightSource::Manual(s) => SunlightSource::Manual(s.clone()),
        }
    }
}

impl SunlightView {
    pub open spec fn value(self) -> Single {
        match self {
            SunlightView::Follow { lag, jitter_pct, cached } => cached,
            SunlightView::Manual(s) => s.cached,
        }
    }

    /// A source that follows the weather, at full sun until it is read.
    pub open spec fn following(lag: Span, jitter_pct: Single) -> SunlightView {
        SunlightView::Follow { lag, jitter_pct, cached: Single::lit(HUNDRED) }
    }

    /// The source after the weather was read: full sun without weather, and
    /// the draw of the jitter applied where there is one.
    pub open spec fn resolved(self, weather_pct: Option<Single>, draw: Single) -> SunlightView {
        match self {
            SunlightView::Follow { lag, jitter_pct, cached } => {
                let sky = match weather_pct {
                    Some(p) => p,
                    None => Single::lit(HUNDRED),
                };
                let pct = if jitter_pct.feq(Single::lit(ZERO)) {
                    sky
                } else {
                    sky.fmul(Single::lit(ONE).fadd(draw.fdiv(Single::lit(HUNDRED))))
                };
                SunlightView::Follow { lag, jitter_pct, cached: pct }
            },
            SunlightView::Manual(s) => self,
        }
    }
}

impl SunlightSource {
    pub fn follow(lag: Span, jitter_pct: Single) -> (r: Self)
        ensures
            r@ == SunlightView::following(lag, jitter_pct),
    {
        SunlightSource::Follow { lag, jitter_pct, cached: Single::from_bits(HUNDRED) }
    }

    pub fn manual(scalar: DynamicScalar) -> (r: Self)
        ensures
            r@ == SunlightView::Manual(scalar@),
    {
        SunlightSource::Manual(scalar)
    }

    /// The sunlight in percent.
    pub fn get(&self) -> (r: Single)
        ensures
            r == self@.value(),
    {
        match self {
            SunlightSource::Follow { lag: _, jitter_pct: _, cached } => *cached,
            SunlightSource::Manual(s) => s.get(),
        }
    }
}

#[derive(Clone, Copy, Debug)]
pub struct SolarInverterConfig {
    pub rated_lower_w: Single,
    pub rated_upper_w: Single,
    pub sunlight_pct: Single,
    pub command_delay: Span,
    pub ramp_rate_w_per_s: Single,
    pub stream_jitter_pct: Single,
    pub reactive: ReactiveCapability,
    pub reactive_command_delay: Span,
    pub reactive_ramp_rate_var_per_s: Single,
    /// The sunlight was given as an expression, which no argument can carry.
    pub sunlight_dynamic: bool,
    /// Start by following the weather.
    pub sunlight_follow: bool,
    pub weather_lag: Span,
    pub weather_jitter_pct: Single,
    /// The DC peak of the array, which may exceed the AC rating.
    pub array_peak_w: Single,
}

impl SolarInverterConfig {
    pub open spec fn wf(self) -> bool {
        self.command_delay.wf() && self.reactive_command_delay.wf() && self.weather_lag.wf()
    }

    pub open spec fn standard() -> SolarInverterConfig {
        SolarInverterConfig {
            rated_lower_w: Single::lit(0xc6ea_6000),
            rated_upper_w: Single::lit(ZERO),
            sunlight_pct: Single::lit(HUNDRED),
            command_delay: Span { secs: 0, nanos: 0 },
            ramp_rate_w_per_s: Single::lit(INFINITY),
            stream_jitter_pct: Single::lit(ZERO),
            reactive: ReactiveCapability {
                pf_limit: Some(Single::lit(crate::reactive::DEFAULT_PF_LIMIT)),
                apparent_va: None,
            },
            reactive_command_delay: Span { secs: 0, nanos: 100_000_000 },
            reactive_ramp_rate_var_per_s: Single::lit(0x44fa_0000),
            sunlight_dynamic: false,
            sunlight_follow: false,
            weather_lag: Span { secs: 0, nanos: 0 },
            weather_jitter_pct: Single::lit(ZERO),
            array_peak_w: Single::lit(0x46ea_6000),
        }
    }

    /// The lowest power at a sunlight: production is negative, and an array
    /// larger than the rating is cut off there.
    pub open spec fn floor_at(self, sunlight_pct: Single) -> Single {
        self.array_peak_w.fneg().fmul(sunlight_pct).fdiv(Single::lit(HUNDRED)).fmax(
            self.rated_lower_w,
        )
    }

    fn floor_w(&self, sunlight_pct: Single) -> (r: Single)
        ensures
            r == self.floor_at(sunlight_pct),
    {
        self.array_peak_w.negated().times(sunlight_pct).over(Single::from_bits(HUNDRED)).max(
            self.rated_lower_w,
        )
    }
}

impl Default for SolarInverterConfig {
    /// 30 kW of production at full sun, no delay and no ramp on the active
    /// axis; a reactive delay of 100 ms and a ramp of 2000 VAr/s.
    fn default() -> (r: Self)
        ensures
            r == SolarInverterConfig::standard(),
    {
        SolarInverterConfig {
            rated_lower_w: Single::from_bits(0xc6ea_6000),
            rated_upper_w: Single::from_bits(ZERO),
            sunlight_pct: Single::from_bits(HUNDRED),
            command_delay: Span { secs: 0, nanos: 0 },
            ramp_rate_w_per_s: Single::from_bits(INFINITY),
            stream_jitter_pct: Single::from_bits(ZERO),
            reactive: ReactiveCapability::microsim_default(),
            reactive_command_delay: Span { secs: 0, nanos: 100_000_000 },
            reactive_ramp_rate_var_per_s: Single::from_bits(0x44fa_0000),
            sunlight_dynamic: false,
            sunlight_follow: false,
            weather_lag: Span { secs: 0, nanos: 0 },
            weather_jitter_pct: Single::from_bits(ZERO),
            array_peak_w: Single::from_bits(0x46ea_6000),
        }
    }
}

#[derive(Debug)]
pub struct SolarInverter {
    pub id: u64,
    pub name: String,
    pub interval: Span,
    pub cfg: SolarInverterConfig,
    pub sunlight_source: SunlightSource,
    pub active: PowerAxis,
    pub reactive: PowerAxis,
}

impl SolarInverter {
    pub open spec fn wf(self) -> bool {
        &&& self.interval.wf()
        &&& self.cfg.wf()
        &&& self.active.wf()
        &&& self.reactive.wf()
        &&& self.sunlight_source@ matches SunlightView::Follow { lag, jitter_pct, cached }
            ==> lag.wf()
    }

    /// The lowest power that the sun of the moment allows.
    pub open spec fn avail(self) -> Single {
        self.cfg.floor_at(self.sunlight_source@.value())
    }

    /// The sunlight that a new inverter starts from.
    pub open spec fn first_source(cfg: SolarInverterConfig) -> SunlightView {
        if cfg.sunlight_follow {
            SunlightView::following(cfg.weather_lag, cfg.weather_jitter_pct)
        } else {
            SunlightView::Manual(ScalarView::constant(cfg.sunlight_pct))
        }
    }

    /// A new inverter produces from the sun it has at once.
    pub fn new(id: u64, interval: Span, cfg: SolarInverterConfig) -> (r: Self)
        requires
            interval.wf(),
            cfg.wf(),
        ensures
            r.wf(),
            r.id == id,
            r.name@ == "inv-pv"@ + "-"@ + crate::text::decimal(id as nat),
            r.interval == interval,
            r.cfg == cfg,
            r.sunlight_source@ == Self::first_source(cfg),
            r.active.rated == Some((cfg.rated_lower_w, cfg.rated_upper_w)),
            r.active.augs.rated@ == crate::bounds::one_band(cfg.rated_lower_w, cfg.rated_upper_w),
            r.active.augs.augmented@.len() == 0,
            r.active.caps is None,
            r.active.delay == (crate::ramp::CommandDelay {
                executing: None,
                waiting: None,
                armed: None,
                delay: cfg.command_delay,
            }),
            r.active.ramp == (crate::ramp::Ramp {
                actual: Single::lit(ZERO),
                target: Single::lit(ZERO),
                rate_w_per_s: cfg.ramp_rate_w_per_s,
            }).snapped(cfg.floor_at(Self::first_source(cfg).value())),
            r.active.published == Single::lit(ZERO),
            r.active.unit@ == "W"@,
            r.reactive.rated is None,
            r.reactive.augs.rated@.len() == 0,
            r.reactive.augs.augmented@.len() == 0,
            r.reactive.caps == Some(cfg.reactive),
            r.reactive.delay == (crate::ramp::CommandDelay {
                executing: None,
                waiting: None,
                armed: None,
                delay: cfg.reactive_command_delay,
            }),
            r.reactive.ramp == (crate::ramp::Ramp {
                actual: Single::lit(ZERO),
                target: Single::lit(ZERO),
                rate_w_per_s: cfg.reactive_ramp_rate_var_per_s,
            }),
            r.reactive.published == Single::lit(ZERO),
            r.reactive.unit@ == "VAr"@,
    {
        let source = if cfg.sunlight_follow {
            SunlightSource::follow(cfg.weather_lag, cfg.weather_jitter_pct)
        } else {
            SunlightSource::manual(DynamicScalar::constant(cfg.sunlight_pct))
        };
        let floor = cfg.floor_w(source.get());
        let mut active = PowerAxis::new(
            AxisConfig {
                rated: Some((cfg.rated_lower_w, cfg.rated_upper_w)),
                caps: None,
                command_delay: cfg.command_delay,
                ramp_rate_per_s: cfg.ramp_rate_w_per_s,
                unit: "W",
            },
        );
        active.snap_output(floor);
        let reactive = PowerAxis::new(
            AxisConfig {
                rated: None,
                caps: Some(cfg.reactive),
                command_delay: cfg.reactive_command_delay,
                ramp_rate_per_s: cfg.reactive_ramp_rate_var_per_s,
                unit: "VAr",
            },
        );
        SolarInverter {
            id,
            name: numbered("inv-pv", id),
            interval,
            cfg,
            sunlight_source: source,
            active,
            reactive,
        }
    }

    pub fn set_sunlight_source(&mut self, scalar: DynamicScalar)
        requires
            old(self).wf(),
        ensures
            final(self).wf(),
            final(self).sunlight_source@ == SunlightView::Manual(scalar@),
            *final(self) == (SolarInverter {
                sunlight_source: final(self).sunlight_source,
                ..*old(self)
            }),
    {
        self.sunlight_source = SunlightSource::manual(scalar);
    }

    pub fn set_sunlight_pct(&mut self, pct: Single)
        requires
            old(self).wf(),
        ensures
            final(self).wf(),
            final(self).sunlight_source@ == SunlightView::Manual(ScalarView::constant(pct)),
            *final(self) == (SolarInverter {
                sunlight_source: final(self).sunlight_source,
                ..*old(self)
            }),
    {
        self.sunlight_source = SunlightSource::manual(DynamicScalar::constant(pct));
    }

    /// Back to following the weather.
    pub fn clear_sunlight(&mut self)
        requires
            old(self).wf(),
        ensures
            final(self).wf(),
            final(self).sunlight_source@ == SunlightView::following(
                old(self).cfg.weather_lag,
                old(self).cfg.weather_jitter_pct,
            ),
            *final(self) == (SolarInverter {
                sunlight_source: final(self).sunlight_source,
                ..*old(self)
            }),
    {
        self.sunlight_source = SunlightSource::follow(
            self.cfg.weather_lag,
            self.cfg.weather_jitter_pct,
        );
    }

    pub fn sunlight_pct(&self) -> (r: Single)
        ensures
            r == self.sunlight_source@.value(),
    {
        self.sunlight_source.get()
    }

    /// The point in time whose weather the inverter sees at `now`, and the
    /// width of its jitter; `None` where it does not follow the weather or
    /// the lag reaches past the start of the calendar.
    pub fn sky_request(&self, now: Timestamp) -> (r: Option<(Timestamp, Single)>)
        requires
            self.wf(),
            now.wf(),
        ensures
            match self.sunlight_source@ {
                SunlightView::Follow { lag, jitter_pct, cached } => match crate::time::earlier(
                    now,
                    lag,
                ) {
                    Some(at) => r == Some((at, jitter_pct.fabs())),
                    None => r is None,
                },
                SunlightView::Manual(s) => r is None,
            },
    {
        match &self.sunlight_source {
            SunlightSource::Follow { lag, jitter_pct, cached: _ } => match before_by(now, *lag) {
                Some(at) => Some((at, jitter_pct.abs())),
                None => None,
            },
            SunlightSource::Manual(_) => None,
        }
    }

    /// Takes a reading of the weather over: `weather_pct` as it was at the
    /// requested time, none on a site without weather, and the `draw` of the
    /// jitter in percent. A source that does not follow the weather is left
    /// alone.
    pub fn resolve_sunlight(&mut self, weather_pct: Option<Single>, draw: Single)
        requires
            old(self).wf(),
        ensures
            final(self).wf(),
            final(self).sunlight_source@ == old(self).sunlight_source@.resolved(weather_pct, draw),
            *final(self) == (SolarInverter {
                sunlight_source: final(self).sunlight_source,
                ..*old(self)
            }),
    {
        let next = match &self.sunlight_source {
            SunlightSource::Follow { lag, jitter_pct, cached: _ } => {
                let sky = match weather_pct {
                    Some(p) => p,
                    None => Single::from_bits(HUNDRED),
                };
                let pct = if jitter_pct.equals(Single::from_bits(ZERO)) {
                    sky
                } else {
                    sky.times(
                        Single::from_bits(ONE).plus(draw.over(Single::from_bits(HUNDRED))),
                    )
                };
                Some(SunlightSource::Follow { lag: *lag, jitter_pct: *jitter_pct, cached: pct })
            },
            SunlightSource::Manual(_) => None,
        };
        if let Some(source) = next {
            self.sunlight_source = source;
        }
    }

    /// Takes over what the sunlight expression came to.
    pub fn refresh_inputs(&mut self, outcome: Outcome)
        requires
            old(self).wf(),
        ensures
            final(self).wf(),
            final(self).sunlight_source@ == match old(self).sunlight_source@ {
                SunlightView::Manual(s) => SunlightView::Manual(s.refreshed(outcome)),
                other => other,
            },
            *final(self) == (SolarInverter {
                sunlight_source: final(self).sunlight_source,
                ..*old(self)
            }),
    {
        let next = match &self.sunlight_source {
            SunlightSource::Manual(s) => {
                let mut fresh = s.clone();
                fresh.refresh(outcome);
                Some(SunlightSource::Manual(fresh))
            },
            SunlightSource::Follow { .. } => None,
        };
        if let Some(source) = next {
            self.sunlight_source = source;
        }
    }

    pub fn min_avail_w(&self) -> (r: Single)
        ensures
            r == self.avail(),
    {
        self.cfg.floor_w(self.sunlight_pct())
    }

    /// `after` is `before` one tick later. An inverter that is not healthy
    /// stops producing; its curtailment stays for the recovery, its reactive
    /// command does not. A healthy one tracks its command inside what the sun
    /// allows, or the sun itself.
    pub open spec fn is_tick(
        before: SolarInverter,
        after: SolarInverter,
        health: Health,
        now: Timestamp,
        dt: Span,
    ) -> bool {
        &&& after == SolarInverter { active: after.active, reactive: after.reactive, ..before }
        &&& if health == Health::Good {
            &&& PowerAxis::is_step(
                before.active,
                after.active,
                now,
                dt,
                Single::lit(ZERO),
                Some(crate::bounds::one_band(before.avail(), before.cfg.rated_upper_w)),
                IdleTarget::Value(before.avail()),
            )
            &&& PowerAxis::is_step(
                before.reactive,
                after.reactive,
                now,
                dt,
                after.active.published,
                None,
                IdleTarget::Hold,
            )
        } else {
            &&& after.active == before.active.snapped(Single::lit(ZERO))
            &&& after.reactive == before.reactive.tripped()
        }
    }

    pub fn tick(&mut self, health: Health, now: Timestamp, dt: Span)
        requires
            old(self).wf(),
            now.wf(),
        ensures
            final(self).wf(),
            Self::is_tick(*old(self), *final(self), health, now, dt),
    {
        if health != Health::Good {
            self.active.snap_output(Single::from_bits(ZERO));
            self.reactive.trip();
            return;
        }
        let avail = self.min_avail_w();
        let sun = VecBounds::single(avail, self.cfg.rated_upper_w);
        let p = self.active.step(
            now,
            dt,
            StepCtx {
                other_axis: Single::from_bits(ZERO),
                dynamic: Some(&sun),
                idle: IdleTarget::Value(avail),
            },
        );
        let _q = self.reactive.step(
            now,
            dt,
            StepCtx { other_axis: p, dynamic: None, idle: IdleTarget::Hold },
        );
    }

    /// The envelope of reactive power at the present output.
    pub open spec fn reactive_envelope(self, now: Timestamp) -> Seq<crate::bounds::Bounds> {
        self.reactive.envelope_of(now, self.active.ramp.actual, None)
    }

    /// That envelope as it is reported: no headroom shows as a band at zero.
    pub open spec fn reported_reactive(self, now: Timestamp) -> Seq<crate::bounds::Bounds> {
        let env = self.reactive_envelope(now);
        if env.len() == 0 {
            crate::bounds::one_band(Single::lit(ZERO), Single::lit(ZERO))
        } else {
            env
        }
    }

    pub open spec fn reading(self, grid: GridState, now: Timestamp) -> TelemetryView {
        crate::inverter::inverter_reading(
            self.id,
            grid,
            self.active.ramp.actual,
            self.reactive.published,
            self.active.augs.effective_spec(now),
            self.reported_reactive(now),
        )
    }

    pub fn telemetry(&self, grid: &GridState, now: Timestamp) -> (r: Telemetry)
        requires
            self.wf(),
            now.wf(),
        ensures
            r@ == self.reading(*grid, now),
    {
        inverter_telemetry(
            self.id,
            grid,
            self.active.actual(),
            self.reactive.published(),
            self.active.effective_static_at(now),
            self.reactive_bounds(now),
        )
    }

    pub fn reactive_bounds_raw(&self, now: Timestamp) -> (r: VecBounds)
        requires
            self.wf(),
            now.wf(),
        ensures
            r@ == self.reactive_envelope(now),
    {
        self.reactive.tracking_envelope_at(now, self.active.actual(), None)
    }

    pub fn reactive_bounds(&self, now: Timestamp) -> (r: VecBounds)
        requires
            self.wf(),
            now.wf(),
        ensures
            r@ == self.reported_reactive(now),
    {
        self.reactive_bounds_raw(now).or_zero_band()
    }

    pub fn set_active_setpoint(&mut self, power_w: Single, now: Timestamp) -> (r: Result<
        (),
        SetpointError,
    >)
        requires
            old(self).wf(),
            now.wf(),
        ensures
            final(self).wf(),
            PowerAxis::is_command_answer(
                old(self).active,
                final(self).active,
                power_w,
                now,
                Single::lit(ZERO),
                r,
            ),
            *final(self) == (SolarInverter { active: final(self).active, ..*old(self) }),
    {
        self.active.accept(power_w, now, Single::from_bits(ZERO))
    }

    pub fn set_reactive_setpoint(&mut self, vars: Single, now: Timestamp) -> (r: Result<
        (),
        SetpointError,
    >)
        requires
            old(self).wf(),
            now.wf(),
        ensures
            final(self).wf(),
            PowerAxis::is_command_answer(
                old(self).reactive,
                final(self).reactive,
                vars,
                now,
                old(self).active.ramp.actual,
                r,
            ),
            *final(self) == (SolarInverter { reactive: final(self).reactive, ..*old(self) }),
    {
        let p = self.active.actual();
        self.reactive.accept(vars, now, p)
    }

    /// Releases both axes: back toward the sun, and to no reactive power.
    pub fn reset_setpoint(&mut self)
        requires
            old(self).wf(),
        ensures
            final(self).wf(),
            *final(self) == (SolarInverter {
                active: old(self).active.reset_to(old(self).avail()),
                reactive: old(self).reactive.reset_to(Single::lit(ZERO)),
                ..*old(self)
            }),
    {
        let avail = self.min_avail_w();
        self.active.reset(avail);
        self.reactive.reset(Single::from_bits(ZERO));
    }

    /// Releases one axis and leaves the other alone.
    pub fn reset_setpoint_axis(&mut self, axis: SetpointAxis)
        requires
            old(self).wf(),
        ensures
            final(self).wf(),
            *final(self) == match axis {
                SetpointAxis::Active => SolarInverter {
                    active: old(self).active.reset_to(old(self).avail()),
                    ..*old(self)
                },
                SetpointAxis::Reactive => SolarInverter {
                    reactive: old(self).reactive.reset_to(Single::lit(ZERO)),
                    ..*old(self)
                },
            },
    {
        match axis {
            SetpointAxis::Active => {
                let avail = self.min_avail_w();
                self.active.reset(avail);
            },
            SetpointAxis::Reactive => {
                self.reactive.reset(Single::from_bits(ZERO));
            },
        }
    }

    pub fn augmentation_active(&self, axis: SetpointAxis, now: Timestamp) -> (r: bool)
        requires
            self.wf(),
            now.wf(),
        ensures
            r == match axis {
                SetpointAxis::Active => self.active.augs.any_live(now),
                SetpointAxis::Reactive => self.reactive.augs.any_live(now),
            },
    {
        match axis {
            SetpointAxis::Active => self.active.augmented(now),
            SetpointAxis::Reactive => self.reactive.augmented(now),
        }
    }

    pub fn try_augment_active_bounds(
        &mut self,
        ts: Timestamp,
        bounds: VecBounds,
        lifetime: Span,
    ) -> (r: Result<(), VecBounds>)
        requires
            old(self).wf(),
            ts.wf(),
            lifetime.wf(),
        ensures
            final(self).wf(),
            PowerAxis::is_augment_answer(
                old(self).active,
                final(self).active,
                ts,
                bounds,
                lifetime,
                old(self).active.envelope_of(ts, Single::lit(ZERO), None),
                r,
            ),
            *final(self) == (SolarInverter { active: final(self).active, ..*old(self) }),
    {
        self.active.try_augment(ts, bounds, lifetime, Single::from_bits(ZERO), None)
    }

    pub fn try_augment_reactive_bounds(
        &mut self,
        ts: Timestamp,
        bounds: VecBounds,
        lifetime: Span,
    ) -> (r: Result<(), VecBounds>)
        requires
            old(self).wf(),
            ts.wf(),
            lifetime.wf(),
        ensures
            final(self).wf(),
            PowerAxis::is_augment_answer(
                old(self).reactive,
                final(self).reactive,
                ts,
                bounds,
                lifetime,
                old(self).reactive_envelope(ts),
                r,
            ),
            *final(self) == (SolarInverter { reactive: final(self).reactive, ..*old(self) }),
    {
        let p = self.active.actual();
        self.reactive.try_augment(ts, bounds, lifetime, p, None)
    }

    /// The sunlight and what drives it; "weather" where that is followed.
    pub fn sunlight_reading(&self) -> (r: ScalarReading)
        ensures
            r.value == self.sunlight_source@.value(),
            crate::dynamic_scalar::text_of(r.expr) == match self.sunlight_source@ {
                SunlightView::Follow { lag, jitter_pct, cached } => Some("weather"@),
                SunlightView::Manual(s) => s.text,
            },
    {
        let expr = match &self.sunlight_source {
            SunlightSource::Follow { .. } => {
                let mut s = String::new();
                crate::text::push_text(&mut s, "weather");
                assert(Seq::<char>::empty() + "weather"@ == "weather"@);
                Some(s)
            },
            SunlightSource::Manual(s) => s.source_text(),
        };
        ScalarReading { value: self.sunlight_pct(), expr }
    }

    /// A captured knob holds this inverter's sunlight.
    pub open spec fn is_knob(self, kind: KnobKind, snap: Option<KnobSnapshot>) -> bool {
        match kind {
            KnobKind::Sunlight => snap matches Some(KnobSnapshot::Sunlight(s)) && s@
                == self.sunlight_source@,
            _ => snap is None,
        }
    }

    pub fn snapshot_knob(&self, kind: KnobKind) -> (r: Option<KnobSnapshot>)
        ensures
            self.is_knob(kind, r),
    {
        match kind {
            KnobKind::Sunlight => Some(KnobSnapshot::Sunlight(self.sunlight_source.clone())),
            _ => None,
        }
    }

    /// The inverter with its sunlight put back; unchanged for another knob's
    /// snapshot.
    pub open spec fn with_knob(self, snap: KnobSnapshot) -> SolarInverter {
        match snap {
            KnobSnapshot::Sunlight(s) => SolarInverter { sunlight_source: s, ..self },
            _ => self,
        }
    }

    pub fn restore_knob(&mut self, snap: KnobSnapshot) -> (r: bool)
        ensures
            r == (snap is Sunlight),
            *final(self) == old(self).with_knob(snap),
    {
        match snap {
            KnobSnapshot::Sunlight(source) => {
                self.sunlight_source = source;
                true
            },
            _ => false,
        }
    }

    /// A sunlight that no argument carries: a driven one, or one set over an
    /// inverter that was built to follow the weather. Following the weather is
    /// written by leaving the argument out, so it is never one.
    pub fn has_unrenderable_source(&self) -> (r: bool)
        ensures
            r == match self.sunlight_source@ {
                SunlightView::Follow { lag, jitter_pct, cached } => false,
                SunlightView::Manual(s) => self.cfg.sunlight_dynamic || self.cfg.sunlight_follow
                    || s.source is Some,
            },
    {
        match &self.sunlight_source {
            SunlightSource::Follow { .. } => false,
            SunlightSource::Manual(s) => self.cfg.sunlight_dynamic || self.cfg.sunlight_follow
                || s.is_dynamic(),
        }
    }

    pub open spec fn common(self) -> CommonInverterCfg {
        CommonInverterCfg {
            rated_lower_w: self.cfg.rated_lower_w,
            rated_upper_w: self.cfg.rated_upper_w,
            command_delay: self.cfg.command_delay,
            ramp_rate_w_per_s: self.cfg.ramp_rate_w_per_s,
            interval: self.interval,
            stream_jitter_pct: self.cfg.stream_jitter_pct,
            reactive: self.cfg.reactive,
            reactive_command_delay: self.cfg.reactive_command_delay,
            reactive_ramp_rate_var_per_s: self.cfg.reactive_ramp_rate_var_per_s,
        }
    }

    pub open spec fn arguments(self) -> Seq<(Seq<char>, KwValue)> {
        let c = self.cfg;
        self.common().arguments() + crate::kwargs::only_if(
            !c.sunlight_dynamic && !c.sunlight_follow && self.sunlight_source@ is Manual,
            ":sunlight%"@,
            KwValue::Float(c.sunlight_pct),
        ) + crate::kwargs::only_if(
            Single::lit(EPSILON).flt(c.array_peak_w.fsub(c.rated_lower_w.fabs()).fabs()),
            ":array-peak-w"@,
            KwValue::Float(c.array_peak_w),
        ) + crate::kwargs::only_if(
            c.weather_lag.total() != 0,
            ":weather-lag-s"@,
            KwValue::Float(c.weather_lag.spec_seconds()),
        ) + crate::kwargs::only_if(
            !c.weather_jitter_pct.feq(Single::lit(ZERO)),
            ":weather-jitter-pct"@,
            KwValue::Float(c.weather_jitter_pct),
        )
    }

    /// What the inverter would be built from again. A driven sunlight and one
    /// that the inverter was not built with are left out, and so are an array
    /// that matches the rating and numbers that are not finite.
    pub fn constructor_kwargs(&self) -> (r: Vec<Kwarg>)
        requires
            self.wf(),
        ensures
            crate::kwargs::pairs(r@) == self.arguments(),
    {
        let c = &self.cfg;
        let mut kw = common_inverter_kwargs(
            &CommonInverterCfg {
                rated_lower_w: c.rated_lower_w,
                rated_upper_w: c.rated_upper_w,
                command_delay: c.command_delay,
                ramp_rate_w_per_s: c.ramp_rate_w_per_s,
                interval: self.interval,
                stream_jitter_pct: c.stream_jitter_pct,
                reactive: c.reactive,
                reactive_command_delay: c.reactive_command_delay,
                reactive_ramp_rate_var_per_s: c.reactive_ramp_rate_var_per_s,
            },
        );
        let manual = match &self.sunlight_source {
            SunlightSource::Manual(_) => true,
            SunlightSource::Follow { .. } => false,
        };
        add_if(
            &mut kw,
            !c.sunlight_dynamic && !c.sunlight_follow && manual,
            ":sunlight%",
            KwValue::Float(c.sunlight_pct),
        );
        let excess = c.array_peak_w.minus(c.rated_lower_w.abs()).abs();
        add_if(
            &mut kw,
            Single::from_bits(EPSILON).lt(excess),
            ":array-peak-w",
            KwValue::Float(c.array_peak_w),
        );
        add_if(
            &mut kw,
            !c.weather_lag.is_zero(),
            ":weather-lag-s",
            KwValue::Float(c.weather_lag.seconds()),
        );
        add_if(
            &mut kw,
            !c.weather_jitter_pct.equals(Single::from_bits(ZERO)),
            ":weather-jitter-pct",
            KwValue::Float(c.weather_jitter_pct),
        );
        assert(crate::kwargs::pairs(kw@) == self.arguments());
        kw
    }
}

/// A captured sunlight, put back later, is the sunlight again, whatever was
/// set or cleared meanwhile.
pub proof fn law_sunlight_round_trips(
    before: SolarInverter,
    later: SolarInverter,
    snap: KnobSnapshot,
)
    requires
        before.is_knob(KnobKind::Sunlight, Some(snap)),
    ensures
        later.with_knob(snap).sunlight_source@ == before.sunlight_source@,
{
}

/// An array larger than the rating is cut off at it: the sun allows no power
/// below the rated one.
pub proof fn law_oversized_array_is_cut_off(c: SolarInverterConfig, sunlight_pct: Single)
    requires
        !c.rated_lower_w.nan(),
    ensures
        c.rated_lower_w.fle(c.floor_at(sunlight_pct)),
{
}

/// An inverter that is not healthy produces nothing on either axis. The
/// curtailment that was commanded stays for the recovery; the reactive command
/// is gone.
pub proof fn law_fault_keeps_the_curtailment(
    before: SolarInverter,
    after: SolarInverter,
    health: Health,
    now: Timestamp,
    dt: Span,
)
    requires
        health != Health::Good,
        SolarInverter::is_tick(before, after, health, now, dt),
    ensures
        after.active.ramp.actual == Single::lit(ZERO),
        after.reactive.published == Single::lit(ZERO),
        after.active.delay == before.active.delay,
        after.reactive.delay == before.reactive.delay.cleared(),
        after.sunlight_source@ == before.sunlight_source@,
{
}

/// The sun lets an array produce its peak times the sunlight in percent, up to
/// the rating; production is negative.
pub proof fn law_sun_sets_the_production(c: SolarInverterConfig, sunlight_pct: Single)
    requires
        c.array_peak_w.finite(),
        c.rated_lower_w.finite(),
        sunlight_pct.finite(),
        accuracy::dist(c.array_peak_w.value() * sunlight_pct.value()) <= accuracy::ample()
            / 4real,
    ensures
        ({
            let sun = -(c.array_peak_w.value() * sunlight_pct.value()) / 100real;
            let floor = c.floor_at(sunlight_pct);
            &&& floor.finite()
            &&& accuracy::dist(
                floor.value() - accuracy::greater(sun, c.rated_lower_w.value()),
            ) <= accuracy::dist(sun) * accuracy::steps(2) + 3real * accuracy::speck()
        }),
{
    let peak = c.array_peak_w;
    let t = accuracy::speck();
    let hundred = Single::lit(HUNDRED);
    accuracy::lemma_ample();
    accuracy::lemma_constants();
    accuracy::lemma_negated_val(peak);
    let y = -peak.value() * sunlight_pct.value();
    assert(y == -(peak.value() * sunlight_pct.value())) by (nonlinear_arith)
        requires
            y == -peak.value() * sunlight_pct.value(),
    ;
    accuracy::law_product_is_accurate(peak.fneg(), sunlight_pct);
    let made = peak.fneg().fmul(sunlight_pct);
    accuracy::lemma_one_step(made.value(), y, t);
    assert(y / hundred.value() == y / 100real);
    assert(t / accuracy::dist(hundred.value()) == t / 100real);
    accuracy::lemma_step_over(made, hundred, y, 1, t);
    let floor = made.fdiv(hundred);
    accuracy::law_values_keep_order(floor, c.rated_lower_w);
    accuracy::law_values_keep_order(c.rated_lower_w, floor);
}

/// A source that follows the weather has the sky's sunlight, full sun without
/// weather; a draw of jitter scales it by `1 + draw / 100`.
pub proof fn law_sunlight_follows_the_weather(
    s: SunlightView,
    weather_pct: Option<Single>,
    draw: Single,
)
    requires
        s is Follow,
        ({
            let sky = match weather_pct {
                Some(p) => p,
                None => Single::lit(HUNDRED),
            };
            &&& sky.finite()
            &&& draw.finite()
            &&& accuracy::dist(draw.value()) <= 1000real
            &&& accuracy::dist(sky.value()) <= accuracy::ample() / 1000real
        }),
    ensures
        ({
            let after = s.resolved(weather_pct, draw).value();
            let sky = match weather_pct {
                Some(p) => p.value(),
                None => 100real,
            };
            let jitter = s->Follow_jitter_pct;
            &&& jitter.feq(Single::lit(ZERO)) ==> after == (match weather_pct {
                Some(p) => p,
                None => Single::lit(HUNDRED),
            })
            &&& !jitter.feq(Single::lit(ZERO)) ==> after.finite() && accuracy::dist(
                after.value() - sky * (1real + draw.value() / 100real),
            ) <= accuracy::dist(sky) * accuracy::steps(40) + accuracy::speck()
        }),
{
    let light = match weather_pct {
        Some(p) => p,
        None => Single::lit(HUNDRED),
    };
    let sky = light.value();
    let one = Single::lit(ONE);
    let hundred = Single::lit(HUNDRED);
    let t = accuracy::speck();
    let d = draw.value();
    accuracy::lemma_ample();
    accuracy::lemma_constants();
    accuracy::law_quotient_is_accurate(draw, hundred);
    let share = draw.fdiv(hundred);
    accuracy::lemma_half_ulp(accuracy::dist(d / 100real));
    accuracy::law_sum_is_accurate(one, share);
    let factor = one.fadd(share);
    accuracy::lemma_half_ulp(accuracy::dist(1real + share.value()));
    let f = factor.value();
    let exact = 1real + d / 100real;
    let off = accuracy::dist(f - exact);
    assert(off <= 30real / 8388608real);
    let w = accuracy::dist(sky);
    assert(accuracy::dist(f) <= 12real);
    accuracy::lemma_dist_product(sky, f);
    crate::reals::lemma_scales(accuracy::dist(f), 12real, w);
    accuracy::law_product_is_accurate(light, factor);
    accuracy::lemma_half_ulp(w * accuracy::dist(f));
    crate::reals::lemma_distributes(f, exact, sky);
    accuracy::lemma_dist_product(sky, f - exact);
    crate::reals::lemma_scales(off, 30real / 8388608real, w);
    assert(w * (30real / 8388608real) == (30real * w) / 8388608real) by (nonlinear_arith);
    accuracy::lemma_steps_of(w, 40, 40real);
}

} // verus!
