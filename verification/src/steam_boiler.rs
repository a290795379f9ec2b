//! A steam boiler with an electric and a gas burner. Gas holds the target
//! pressure; electricity covers the demand as far as it is allotted.

use crate::axis::{AxisConfig, IdleTarget, PowerAxis, StepCtx};
use crate::bounds::VecBounds;
use crate::component::{
    Category, KnobKind, KnobSnapshot, ScalarReading, SetpointError, Telemetry, TelemetryView,
};
use crate::decay::SECS_PER_HOUR;
use crate::dynamic_scalar::{DynamicScalar, Outcome, ScalarView};
use crate::grid_state::GridState;
use crate::kwargs::{add_if, millis_kw, KwValue, Kwarg};
use crate::single::{Single, INFINITY, MIN_POSITIVE, ZERO};
use crate::text::numbered;
use crate::time::{Span, Timestamp};
use crate::timeout_tracker::SetpointAxis;
use vstd::prelude::*;

verus! {

#[derive(Clone, Copy, Debug)]
pub struct SteamBoilerConfig {
    pub rated_lower_w: Single,
    pub rated_upper_w: Single,
    pub target_bar: Single,
    pub max_bar: Single,
    /// `None` to start at the target.
    pub initial_bar: Option<Single>,
    pub capacity_wh_per_bar: Single,
    pub wh_per_kg: Single,
    /// The demand at the start, where it is a number.
    pub demand_kg_h: Single,
    /// The demand was given as an expression, which no argument can carry.
    pub demand_dynamic: bool,
    pub command_delay: Span,
    pub ramp_rate_w_per_s: Single,
    pub stream_jitter_pct: Single,
}

impl SteamBoilerConfig {
    /// The pressures are numbers in order.
    pub open spec fn wf(self) -> bool {
        &&& self.command_delay.wf()
        &&& Single::lit(MIN_POSITIVE).fle(self.max_bar)
        &&& self.target_bar.fle(self.max_bar)
    }

    pub open spec fn standard() -> SteamBoilerConfig {
        SteamBoilerConfig {
            rated_lower_w: Single::lit(ZERO),
            rated_upper_w: Single::lit(0x4874_2400),
            target_bar: Single::lit(0x4100_0000),
            max_bar: Single::lit(0x4120_0000),
            initial_bar: None,
            capacity_wh_per_bar: Single::lit(0x461c_4000),
            wh_per_kg: Single::lit(0x441c_c000),
            demand_kg_h: Single::lit(ZERO),
            demand_dynamic: false,
            command_delay: Span { secs: 0, nanos: 500_000_000 },
            ramp_rate_w_per_s: Single::lit(INFINITY),
            stream_jitter_pct: Single::lit(ZERO),
        }
    }

    /// The power that a demand in kg/h takes; demand that is negative or not
    /// finite counts as none.
    pub open spec fn demand_w(self, raw_kg_h: Single) -> Single {
        (if raw_kg_h.finite() {
            raw_kg_h.fmax(Single::lit(ZERO))
        } else {
            Single::lit(ZERO)
        }).fmul(self.wh_per_kg)
    }

    /// The electric power wanted: none above the target pressure; else the
    /// demand and what closes the gap within the tick, up to the rating.
    pub open spec fn need_w(self, pressure: Single, demand_w: Single, dt_s: Single) -> Single {
        if self.target_bar.flt(pressure) {
            Single::lit(ZERO)
        } else {
            let recovery = self.target_bar.fsub(pressure).fmul(self.capacity_wh_per_bar).fmul(
                Single::lit(SECS_PER_HOUR),
            ).fdiv(dt_s);
            demand_w.fadd(recovery).fmin(self.rated_upper_w)
        }
    }

    /// The pressure after a tick at power `p`: the gas burner holds the
    /// target from below.
    pub open spec fn pressure_after(
        self,
        pressure: Single,
        p: Single,
        demand_w: Single,
        dt_s: Single,
    ) -> Single {
        pressure.fadd(
            p.fsub(demand_w).fmul(dt_s).fdiv(Single::lit(SECS_PER_HOUR)).fdiv(
                self.capacity_wh_per_bar,
            ),
        ).fclamp(self.target_bar, self.max_bar)
    }
}

impl Default for SteamBoilerConfig {
    /// 250 kW, a target of 8 bar, at most 10 bar, 10 kWh per bar and 627 Wh
    /// per kg, a command delay of half a second.
    fn default() -> (r: Self)
        ensures
            r == SteamBoilerConfig::standard(),
    {
        SteamBoilerConfig {
            rated_lower_w: Single::from_bits(ZERO),
            rated_upper_w: Single::from_bits(0x4874_2400),
            target_bar: Single::from_bits(0x4100_0000),
            max_bar: Single::from_bits(0x4120_0000),
            initial_bar: None,
            capacity_wh_per_bar: Single::from_bits(0x461c_4000),
            wh_per_kg: Single::from_bits(0x441c_c000),
            demand_kg_h: Single::from_bits(ZERO),
            demand_dynamic: false,
            command_delay: Span { secs: 0, nanos: 500_000_000 },
            ramp_rate_w_per_s: Single::from_bits(INFINITY),
            stream_jitter_pct: Single::from_bits(ZERO),
        }
    }
}

#[derive(Debug)]
pub struct SteamBoiler {
    pub id: u64,
    pub name: String,
    pub interval: Span,
    pub cfg: SteamBoilerConfig,
    pub pressure_bar: Single,
    /// The power wanted at the last tick, for the reported bounds.
    pub effective_upper_w: Single,
    pub demand_source: DynamicScalar,
    pub active: PowerAxis,
}

impl SteamBoiler {
    pub open spec fn wf(self) -> bool {
        self.interval.wf() && self.cfg.wf() && self.active.wf()
    }

    pub fn new(id: u64, interval: Span, cfg: SteamBoilerConfig) -> (r: Self)
        requires
            interval.wf(),
            cfg.wf(),
        ensures
            r.wf(),
            r.id == id,
            r.name@ == "steam-boiler"@ + "-"@ + crate::text::decimal(id as nat),
            r.interval == interval,
            r.cfg == cfg,
            r.pressure_bar == (match cfg.initial_bar {
                Some(b) => b,
                None => cfg.target_bar,
            }).fclamp(Single::lit(MIN_POSITIVE), cfg.max_bar),
            r.effective_upper_w == Single::lit(ZERO),
            r.demand_source@ == ScalarView::constant(cfg.demand_kg_h),
            r.active.rated == Some((cfg.rated_lower_w, cfg.rated_upper_w)),
            r.active.augs.rated@ == crate::bounds::one_band(cfg.rated_lower_w, cfg.rated_upper_w),
            r.active.augs.augmented@.len() == 0,
            r.active.caps is None,
            r.active.delay == (crate::ramp::CommandDelay {
                executing: None,
                waiting: None,
                armed: None,
                delay: cfg.command_delay,
            }),
            r.active.ramp == (crate::ramp::Ramp {
                actual: Single::lit(ZERO),
                target: Single::lit(ZERO),
                rate_w_per_s: cfg.ramp_rate_w_per_s,
            }),
            r.active.published == Single::lit(ZERO),
            r.active.unit@ == "W"@,
    {
        let first = match cfg.initial_bar {
            Some(b) => b,
            None => cfg.target_bar,
        };
        let active = PowerAxis::new(
            AxisConfig {
                rated: Some((cfg.rated_lower_w, cfg.rated_upper_w)),
                caps: None,
                command_delay: cfg.command_delay,
                ramp_rate_per_s: cfg.ramp_rate_w_per_s,
                unit: "W",
            },
        );
        SteamBoiler {
            id,
            name: numbered("steam-boiler", id),
            interval,
            cfg,
            pressure_bar: first.clamp(Single::from_bits(MIN_POSITIVE), cfg.max_bar),
            effective_upper_w: Single::from_bits(ZERO),
            demand_source: DynamicScalar::constant(cfg.demand_kg_h),
            active,
        }
    }

    pub fn set_steam_demand_source(&mut self, scalar: DynamicScalar)
        ensures
            *final(self) == (SteamBoiler { demand_source: scalar, ..*old(self) }),
    {
        self.demand_source = scalar;
    }

    pub fn set_steam_demand_kg_h(&mut self, kg_h: Single) -> (r: bool)
        ensures
            r,
            final(self).demand_source@ == ScalarView::constant(kg_h),
            *final(self) == (SteamBoiler {
                demand_source: final(self).demand_source,
                ..*old(self)
            }),
    {
        self.demand_source = DynamicScalar::constant(kg_h);
        true
    }

    /// Takes over what the demand expression came to.
    pub fn refresh_inputs(&mut self, outcome: Outcome)
        ensures
            final(self).demand_source@ == old(self).demand_source@.refreshed(outcome),
            *final(self) == (SteamBoiler {
                demand_source: final(self).demand_source,
                ..*old(self)
            }),
    {
        self.demand_source.refresh(outcome);
    }

    /// `after` is `before` one tick later; nothing happens where no time has
    /// passed. The allotted power is tracked inside what the boiler wants, and
    /// the rest of the demand is gas.
    pub open spec fn is_tick(
        before: SteamBoiler,
        after: SteamBoiler,
        now: Timestamp,
        dt: Span,
    ) -> bool {
        let c = before.cfg;
        let dt_s = dt.spec_seconds();
        let demand = c.demand_w(before.demand_source@.cached);
        let need = c.need_w(before.pressure_bar, demand, dt_s);
        if dt_s.fle(Single::lit(ZERO)) {
            after == before
        } else {
            &&& PowerAxis::is_step(
                before.active,
                after.active,
                now,
                dt,
                Single::lit(ZERO),
                Some(crate::bounds::one_band(Single::lit(ZERO), need)),
                IdleTarget::Value(Single::lit(ZERO)),
            )
            &&& after == SteamBoiler {
                active: after.active,
                effective_upper_w: need,
                pressure_bar: c.pressure_after(
                    before.pressure_bar,
                    after.active.published,
                    demand,
                    dt_s,
                ),
                ..before
            }
        }
    }

    pub fn tick(&mut self, now: Timestamp, dt: Span)
        requires
            old(self).wf(),
            now.wf(),
        ensures
            final(self).wf(),
            Self::is_tick(*old(self), *final(self), now, dt),
            crate::boiler_laws::is_heatable(*old(self), final(self).active.published, dt)
                ==> crate::boiler_laws::pressure_shows(
                *old(self),
                final(self).pressure_bar,
                final(self).active.published,
                dt,
            ),
    {
        let ghost before = *self;
        let zero = Single::from_bits(ZERO);
        let dt_s = dt.seconds();
        if dt_s.le(zero) {
            proof {
                if crate::boiler_laws::is_heatable(before, self.active.published, dt) {
                    crate::boiler_laws::law_pressure_follows_the_surplus(before, *self, now, dt);
                }
            }
            return;
        }
        let c = self.cfg;
        let raw = self.demand_source.get();
        let demand_kg_h = if raw.is_finite() {
            raw.max(zero)
        } else {
            zero
        };
        let demand = demand_kg_h.times(c.wh_per_kg);
        let pressure = self.pressure_bar;
        let need = if c.target_bar.lt(pressure) {
            zero
        } else {
            let recovery = c.target_bar.minus(pressure).times(c.capacity_wh_per_bar).times(
                Single::from_bits(SECS_PER_HOUR),
            ).over(dt_s);
            demand.plus(recovery).min(c.rated_upper_w)
        };
        let band = VecBounds::single(zero, need);
        let p = self.active.step(
            now,
            dt,
            StepCtx { other_axis: zero, dynamic: Some(&band), idle: IdleTarget::Value(zero) },
        );
        let moved = p.minus(demand).times(dt_s).over(Single::from_bits(SECS_PER_HOUR)).over(
            c.capacity_wh_per_bar,
        );
        self.pressure_bar = pressure.plus(moved).clamp(c.target_bar, c.max_bar);
        self.effective_upper_w = need;
        proof {
            if crate::boiler_laws::is_heatable(before, self.active.published, dt) {
                crate::boiler_laws::law_pressure_follows_the_surplus(before, *self, now, dt);
            }
        }
    }

    /// What can be allotted: the power wanted within the bounds in force.
    pub open spec fn allotment(self, now: Timestamp) -> Seq<crate::bounds::Bounds> {
        crate::bounds::bands_meet(
            crate::bounds::one_band(Single::lit(ZERO), self.effective_upper_w),
            self.active.augs.effective_spec(now),
        )
    }

    pub open spec fn reading(self, grid: GridState, now: Timestamp) -> TelemetryView {
        TelemetryView {
            active_power_w: Some(self.active.ramp.actual),
            reactive_power_var: Some(Single::lit(ZERO)),
            pressure_bar: Some(self.pressure_bar),
            per_phase_voltage_v: Some(grid.voltage_per_phase),
            frequency_hz: Some(grid.frequency_hz),
            active_power_bounds: Some(self.allotment(now)),
            ..TelemetryView::blank(self.id, Some(Category::SteamBoiler))
        }
    }

    pub fn telemetry(&self, grid: &GridState, now: Timestamp) -> (r: Telemetry)
        requires
            self.wf(),
            now.wf(),
        ensures
            r@ == self.reading(*grid, now),
    {
        let mut t = Telemetry::blank(self.id, Some(Category::SteamBoiler));
        t.active_power_w = Some(self.active.actual());
        t.reactive_power_var = Some(Single::from_bits(ZERO));
        t.pressure_bar = Some(self.pressure_bar);
        t.per_phase_voltage_v = Some(grid.voltage_per_phase);
        t.frequency_hz = Some(grid.frequency_hz);
        t.active_power_bounds = Some(self.effective_active_bounds(now));
        t
    }

    /// Takes or refuses a command at `now`, by the static bounds: a command
    /// beyond what the boiler wants stands and is tracked when it is wanted.
    pub fn set_active_setpoint(&mut self, power_w: Single, now: Timestamp) -> (r: Result<
        (),
        SetpointError,
    >)
        requires
            old(self).wf(),
            now.wf(),
        ensures
            final(self).wf(),
            PowerAxis::is_command_answer(
                old(self).active,
                final(self).active,
                power_w,
                now,
                Single::lit(ZERO),
                r,
            ),
            *final(self) == (SteamBoiler { active: final(self).active, ..*old(self) }),
    {
        self.active.accept(power_w, now, Single::from_bits(ZERO))
    }

    /// Augments the bounds, unless they would be disjoint from what the boiler
    /// wants.
    pub fn try_augment_active_bounds(
        &mut self,
        ts: Timestamp,
        bounds: VecBounds,
        lifetime: Span,
    ) -> (r: Result<(), VecBounds>)
        requires
            old(self).wf(),
            ts.wf(),
            lifetime.wf(),
        ensures
            final(self).wf(),
            PowerAxis::is_augment_answer(
                old(self).active,
                final(self).active,
                ts,
                bounds,
                lifetime,
                old(self).active.envelope_of(
                    ts,
                    Single::lit(ZERO),
                    Some(
                        crate::bounds::one_band(Single::lit(ZERO), old(self).effective_upper_w),
                    ),
                ),
                r,
            ),
            *final(self) == (SteamBoiler { active: final(self).active, ..*old(self) }),
    {
        let zero = Single::from_bits(ZERO);
        let need = VecBounds::single(zero, self.effective_upper_w);
        self.active.try_augment(ts, bounds, lifetime, zero, Some(&need))
    }

    pub fn augmentation_active(&self, axis: SetpointAxis, now: Timestamp) -> (r: bool)
        requires
            self.wf(),
            now.wf(),
        ensures
            r == (axis is Active && self.active.augs.any_live(now)),
    {
        match axis {
            SetpointAxis::Active => self.active.augmented(now),
            SetpointAxis::Reactive => false,
        }
    }

    pub fn reset_setpoint(&mut self)
        requires
            old(self).wf(),
        ensures
            final(self).wf(),
            *final(self) == (SteamBoiler { active: old(self).active.tripped(), ..*old(self) }),
    {
        self.active.trip();
    }

    pub fn effective_active_bounds(&self, now: Timestamp) -> (r: VecBounds)
        requires
            self.wf(),
            now.wf(),
        ensures
            r@ == self.allotment(now),
    {
        let wanted = VecBounds::single(Single::from_bits(ZERO), self.effective_upper_w);
        let in_force = self.active.effective_static_at(now);
        wanted.intersect(&in_force)
    }

    /// The boiler with its pressure set, at most the maximum; a value that is
    /// not finite is ignored.
    pub open spec fn with_pressure(self, bar: Single) -> SteamBoiler {
        SteamBoiler {
            pressure_bar: if bar.finite() {
                bar.fclamp(Single::lit(MIN_POSITIVE), self.cfg.max_bar)
            } else {
                self.pressure_bar
            },
            ..self
        }
    }

    pub fn set_pressure_bar(&mut self, bar: Single) -> (r: bool)
        requires
            old(self).wf(),
        ensures
            r,
            final(self).wf(),
            *final(self) == old(self).with_pressure(bar),
    {
        if bar.is_finite() {
            self.pressure_bar = bar.clamp(Single::from_bits(MIN_POSITIVE), self.cfg.max_bar);
        }
        true
    }

    pub fn demand_reading(&self) -> (r: ScalarReading)
        ensures
            r.value == self.demand_source@.cached,
            crate::dynamic_scalar::text_of(r.expr) == self.demand_source@.text,
    {
        ScalarReading { value: self.demand_source.get(), expr: self.demand_source.source_text() }
    }

    pub fn pressure_reading(&self) -> (r: ScalarReading)
        ensures
            r.value == self.pressure_bar,
            r.expr is None,
    {
        ScalarReading { value: self.pressure_bar, expr: None }
    }

    /// A captured knob holds this boiler's demand.
    pub open spec fn is_knob(self, kind: KnobKind, snap: Option<KnobSnapshot>) -> bool {
        match kind {
            KnobKind::BoilerDemand => snap matches Some(KnobSnapshot::BoilerDemand(s)) && s@
                == self.demand_source@,
            _ => snap is None,
        }
    }

    pub fn snapshot_knob(&self, kind: KnobKind) -> (r: Option<KnobSnapshot>)
        ensures
            self.is_knob(kind, r),
    {
        match kind {
            KnobKind::BoilerDemand => Some(KnobSnapshot::BoilerDemand(self.demand_source.clone())),
            _ => None,
        }
    }

    /// The boiler with its demand put back; unchanged for another knob's
    /// snapshot.
    pub open spec fn with_knob(self, snap: KnobSnapshot) -> SteamBoiler {
        match snap {
            KnobSnapshot::BoilerDemand(s) => SteamBoiler { demand_source: s, ..self },
            _ => self,
        }
    }

    pub fn restore_knob(&mut self, snap: KnobSnapshot) -> (r: bool)
        ensures
            r == (snap is BoilerDemand),
            *final(self) == old(self).with_knob(snap),
    {
        match snap {
            KnobSnapshot::BoilerDemand(scalar) => {
                self.demand_source = scalar;
                true
            },
            _ => false,
        }
    }

    pub fn has_unrenderable_source(&self) -> (r: bool)
        ensures
            r == (self.cfg.demand_dynamic || self.demand_source@.source is Some),
    {
        self.cfg.demand_dynamic || self.demand_source.is_dynamic()
    }

    pub open spec fn arguments(self) -> Seq<(Seq<char>, KwValue)> {
        let c = self.cfg;
        let d = SteamBoilerConfig::standard();
        crate::kwargs::only_if(
            !c.rated_lower_w.feq(d.rated_lower_w),
            ":rated-lower"@,
            KwValue::Float(c.rated_lower_w),
        ) + crate::kwargs::only_if(true, ":rated-upper"@, KwValue::Float(c.rated_upper_w))
            + crate::kwargs::only_if(true, ":target-bar"@, KwValue::Float(c.target_bar))
            + crate::kwargs::only_if(true, ":max-bar"@, KwValue::Float(c.max_bar))
            + crate::kwargs::only_if(
            !c.capacity_wh_per_bar.feq(d.capacity_wh_per_bar),
            ":capacity-wh-per-bar"@,
            KwValue::Float(c.capacity_wh_per_bar),
        ) + crate::kwargs::only_if(
            !c.wh_per_kg.feq(d.wh_per_kg),
            ":wh-per-kg"@,
            KwValue::Float(c.wh_per_kg),
        ) + crate::kwargs::only_if(
            c.initial_bar is Some && !(c.initial_bar->0).feq(c.target_bar),
            ":initial-bar"@,
            KwValue::Float(c.initial_bar->0),
        ) + crate::kwargs::only_if(
            !c.demand_dynamic,
            ":demand"@,
            KwValue::Float(c.demand_kg_h),
        ) + crate::kwargs::only_if(
            true,
            ":command-delay-ms"@,
            crate::kwargs::millis_value(c.command_delay),
        ) + crate::kwargs::only_if(
            true,
            ":ramp-rate"@,
            KwValue::Float(c.ramp_rate_w_per_s),
        ) + crate::kwargs::only_if(
            crate::kwargs::unusual_interval(self.interval),
            ":interval"@,
            crate::kwargs::millis_value(self.interval),
        ) + crate::kwargs::only_if(
            !c.stream_jitter_pct.feq(d.stream_jitter_pct),
            ":stream-jitter-pct"@,
            KwValue::Float(c.stream_jitter_pct),
        )
    }

    /// What the boiler would be built from again; defaults and numbers that
    /// are not finite are left out.
    pub fn constructor_kwargs(&self) -> (r: Vec<Kwarg>)
        requires
            self.wf(),
        ensures
            crate::kwargs::pairs(r@) == self.arguments(),
    {
        let c = &self.cfg;
        let d = SteamBoilerConfig::default();
        let mut kw: Vec<Kwarg> = Vec::new();
        add_if(
            &mut kw,
            !c.rated_lower_w.equals(d.rated_lower_w),
            ":rated-lower",
            KwValue::Float(c.rated_lower_w),
        );
        add_if(&mut kw, true, ":rated-upper", KwValue::Float(c.rated_upper_w));
        add_if(&mut kw, true, ":target-bar", KwValue::Float(c.target_bar));
        add_if(&mut kw, true, ":max-bar", KwValue::Float(c.max_bar));
        add_if(
            &mut kw,
            !c.capacity_wh_per_bar.equals(d.capacity_wh_per_bar),
            ":capacity-wh-per-bar",
            KwValue::Float(c.capacity_wh_per_bar),
        );
        add_if(
            &mut kw,
            !c.wh_per_kg.equals(d.wh_per_kg),
            ":wh-per-kg",
            KwValue::Float(c.wh_per_kg),
        );
        if let Some(initial) = c.initial_bar {
            add_if(
                &mut kw,
                !initial.equals(c.target_bar),
                ":initial-bar",
                KwValue::Float(initial),
            );
        }
        add_if(&mut kw, !c.demand_dynamic, ":demand", KwValue::Float(c.demand_kg_h));
        add_if(&mut kw, true, ":command-delay-ms", millis_kw(c.command_delay));
        add_if(
            &mut kw,
            true,
            ":ramp-rate",
            KwValue::Float(c.ramp_rate_w_per_s),
        );
        add_if(
            &mut kw,
            self.interval != (Span { secs: 1, nanos: 0 }),
            ":interval",
            millis_kw(self.interval),
        );
        add_if(
            &mut kw,
            !c.stream_jitter_pct.equals(d.stream_jitter_pct),
            ":stream-jitter-pct",
            KwValue::Float(c.stream_jitter_pct),
        );
        assert(crate::kwargs::pairs(kw@) == self.arguments());
        kw
    }
}

/// A captured demand, put back later, is the demand again.
pub proof fn law_demand_round_trips(before: SteamBoiler, later: SteamBoiler, snap: KnobSnapshot)
    requires
        before.is_knob(KnobKind::BoilerDemand, Some(snap)),
    ensures
        later.with_knob(snap).demand_source@ == before.demand_source@,
{
}

/// After a tick the pressure is between the target and the maximum, where it
/// is a number.
pub proof fn law_pressure_is_held(
    c: SteamBoilerConfig,
    pressure: Single,
    p: Single,
    demand_w: Single,
    dt_s: Single,
)
    requires
        c.wf(),
        !c.pressure_after(pressure, p, demand_w, dt_s).nan(),
    ensures
        c.target_bar.fle(c.pressure_after(pressure, p, demand_w, dt_s)),
        c.pressure_after(pressure, p, demand_w, dt_s).fle(c.max_bar),
{
}

/// Above the target pressure the boiler wants no electricity.
pub proof fn law_no_electricity_above_target(
    c: SteamBoilerConfig,
    pressure: Single,
    demand_w: Single,
    dt_s: Single,
)
    requires
        c.target_bar.flt(pressure),
    ensures
        c.need_w(pressure, demand_w, dt_s) == Single::lit(ZERO),
{
}

} // verus!
